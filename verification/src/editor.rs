//! The tab/buffer session model: per-tab content, file association and
//! modification tracking, bounded undo/redo history, and search-match
//! indexing with cursor-relative circular navigation.

use vstd::prelude::*;

use crate::history::{
    spec_record_edit, spec_redo, spec_undo, HistoryModel, HISTORY_CAP,
};
use crate::search::{
    find_matches, is_match_list, next_match_start, next_start, prev_match_start, prev_start,
    sorted_matches,
};
use crate::text::{dec_digits, dec_string, lower_of, lowercase};

verus! {

/// The title a freshly created, never-saved buffer gets; `n` is its
/// 1-based creation ordinal.
pub open spec fn untitled_title(n: nat) -> Seq<char> {
    "Untitled "@ + dec_digits(n)
}

/// The portion of a path after its last `/`: empty when the path is
/// empty or ends in a separator.
pub open spec fn base_name(p: Seq<char>) -> Seq<char>
    decreases p.len(),
{
    if p.len() == 0 {
        Seq::empty()
    } else if p.last() == '/' {
        Seq::empty()
    } else {
        base_name(p.drop_last()).push(p.last())
    }
}

/// The title a buffer opened from `path` gets: the name after the last
/// separator, or `Untitled` when nothing follows it.
pub open spec fn spec_title_for(path: Seq<char>) -> Seq<char> {
    if base_name(path).len() == 0 {
        "Untitled"@
    } else {
        base_name(path)
    }
}

/// The name after the last `/` is the slash-free tail of the path.
proof fn lemma_base_name_split(p: Seq<char>, i: int)
    requires
        0 <= i <= p.len(),
        forall|j: int| i <= j < p.len() ==> p[j] != '/',
        i > 0 ==> p[i - 1] == '/',
    ensures
        base_name(p) =~= p.subrange(i, p.len() as int),
    decreases p.len(),
{
    if i == p.len() {
    } else {
        lemma_base_name_split(p.drop_last(), i);
        assert(p.drop_last().subrange(i, p.len() - 1) =~= p.subrange(i, p.len() - 1));
        assert(p.subrange(i, p.len() - 1).push(p.last()) =~= p.subrange(i, p.len() as int));
    }
}

/// Derives a buffer title from a path: the file name after the last
/// `/`, or `Untitled` when nothing follows it.
pub fn title_for_path(path: &str) -> (r: String)
    ensures
        r@ == spec_title_for(path@),
{
    let n = path.unicode_len();
    let mut cut: usize = 0;
    let mut k: usize = 0;
    while k < n
        invariant
            n == path@.len(),
            cut <= k <= n,
            forall|j: int| cut <= j < k ==> path@[j] != '/',
            cut > 0 ==> path@[cut - 1] == '/',
        decreases n - k,
    {
        if path.get_char(k) == '/' {
            cut = k + 1;
        }
        k += 1;
    }
    proof {
        lemma_base_name_split(path@, cut as int);
    }
    if cut == n {
        String::from_str("Untitled")
    } else {
        let base = path.substring_char(cut, n);
        base.to_owned()
    }
}

/// One open document: its text, metadata, and per-document history and
/// search state.
pub struct EditorTab {
    pub id: usize,
    pub title: String,
    pub content: String,
    pub file_path: Option<String>,
    pub modified: bool,
    pub undo_stack: Vec<String>,
    pub redo_stack: Vec<String>,
    pub cursor_pos: usize,
    pub search_highlights: Vec<(usize, usize)>,
}

impl EditorTab {
    /// The mathematical content-and-history state of this buffer.
    pub open spec fn hist(&self) -> HistoryModel {
        HistoryModel {
            content: self.content@,
            undo: self.undo_stack.deep_view(),
            redo: self.redo_stack.deep_view(),
            modified: self.modified,
        }
    }

    /// Well-formedness: the undo stack is within its cap and the recorded
    /// match spans are strictly ascending by start offset.
    pub open spec fn wf(&self) -> bool {
        &&& self.hist().inv()
        &&& sorted_matches(self.search_highlights@)
    }

    /// The fields untouched by history operations.
    pub open spec fn same_meta(&self, post: EditorTab) -> bool {
        &&& post.id == self.id
        &&& post.title == self.title
        &&& post.file_path == self.file_path
        &&& post.cursor_pos == self.cursor_pos
        &&& post.search_highlights == self.search_highlights
    }

    /// The fields untouched by search and navigation operations.
    pub open spec fn same_buffer(&self, post: EditorTab) -> bool {
        &&& post.id == self.id
        &&& post.title == self.title
        &&& post.file_path == self.file_path
        &&& post.content == self.content
        &&& post.modified == self.modified
        &&& post.undo_stack == self.undo_stack
        &&& post.redo_stack == self.redo_stack
    }

    /// Commits an edit whose pre-edit text was the current content: the
    /// old content becomes an undo snapshot (evicting the oldest at the
    /// cap), the redo stack is invalidated, and the buffer is modified.
    pub fn record_edit(&mut self, new_content: String)
        requires
            old(self).wf(),
        ensures
            final(self).wf(),
            final(self).hist() == spec_record_edit(old(self).hist(), new_content@),
            old(self).same_meta(*final(self)),
    {
        let prev = self.content.clone();
        self.content = new_content;
        self.undo_stack.push(prev);
        if self.undo_stack.len() > HISTORY_CAP {
            self.undo_stack.remove(0);
            proof {
                assert(self.undo_stack.deep_view() =~= old(self).undo_stack.deep_view().push(
                    old(self).content@,
                ).drop_first());
            }
        } else {
            proof {
                assert(self.undo_stack.deep_view() =~= old(self).undo_stack.deep_view().push(
                    old(self).content@,
                ));
            }
        }
        self.redo_stack.clear();
        self.modified = true;
        proof {
            assert(self.redo_stack.deep_view() =~= Seq::<Seq<char>>::empty());
        }
    }

    /// Undoes the most recent edit, if any snapshot is available.
    pub fn undo(&mut self)
        requires
            old(self).wf(),
        ensures
            final(self).wf(),
            final(self).hist() == spec_undo(old(self).hist()),
            old(self).same_meta(*final(self)),
    {
        if let Some(prev) = self.undo_stack.pop() {
            self.redo_stack.push(self.content.clone());
            self.content = prev;
            self.modified = true;
            proof {
                assert(self.undo_stack.deep_view() =~= old(self).undo_stack.deep_view()
                    .drop_last());
                assert(self.redo_stack.deep_view() =~= old(self).redo_stack.deep_view().push(
                    old(self).content@,
                ));
            }
        }
    }

    /// Redoes the most recently undone edit, if any is available.
    pub fn redo(&mut self)
        requires
            old(self).wf(),
        ensures
            final(self).wf(),
            final(self).hist() == spec_redo(old(self).hist()),
            old(self).same_meta(*final(self)),
    {
        if let Some(next) = self.redo_stack.pop() {
            self.undo_stack.push(self.content.clone());
            self.content = next;
            self.modified = true;
            proof {
                assert(self.redo_stack.deep_view() =~= old(self).redo_stack.deep_view()
                    .drop_last());
                assert(self.undo_stack.deep_view() =~= old(self).undo_stack.deep_view().push(
                    old(self).content@,
                ));
            }
        }
    }
}

/// A fresh, empty, never-saved buffer created with identity `id`.
pub open spec fn is_fresh_tab(t: EditorTab, id: usize) -> bool {
    &&& t.id == id
    &&& t.title@ == untitled_title(id as nat + 1)
    &&& t.content@.len() == 0
    &&& t.file_path is None
    &&& !t.modified
    &&& t.undo_stack@.len() == 0
    &&& t.redo_stack@.len() == 0
    &&& t.cursor_pos == 0
    &&& t.search_highlights@.len() == 0
}

/// A buffer freshly opened from a file, created with identity `id`.
pub open spec fn is_opened_tab(
    t: EditorTab,
    id: usize,
    path: Seq<char>,
    title: Seq<char>,
    content: Seq<char>,
) -> bool {
    &&& t.id == id
    &&& t.title@ == title
    &&& t.content@ == content
    &&& t.file_path matches Some(p) && p@ == path
    &&& !t.modified
    &&& t.undo_stack@.len() == 0
    &&& t.redo_stack@.len() == 0
    &&& t.cursor_pos == 0
    &&& t.search_highlights@.len() == 0
}

/// The session manager: the ordered tab collection, the active-tab
/// selector, the id counter, and the open workspace folder.
pub struct Editor {
    pub tabs: Vec<EditorTab>,
    pub active_tab: usize,
    pub next_id: usize,
    pub workspace_folder: Option<String>,
}

impl Editor {
    /// Every tab is well-formed, tab identities are unique, and none has
    /// reached the id counter yet.
    pub open spec fn tabs_wf(&self) -> bool {
        &&& forall|i: int| 0 <= i < self.tabs@.len() ==> (#[trigger] self.tabs@[i]).wf()
        &&& forall|i: int| 0 <= i < self.tabs@.len() ==> (#[trigger] self.tabs@[i]).id
            < self.next_id
        &&& forall|i: int, j: int|
            0 <= i < j < self.tabs@.len() ==> self.tabs@[i].id != self.tabs@[j].id
    }

    /// Session invariant: at least one tab exists and the active index is
    /// valid, besides the per-tab conditions.
    pub open spec fn wf(&self) -> bool {
        &&& self.tabs@.len() >= 1
        &&& self.active_tab < self.tabs@.len()
        &&& self.tabs_wf()
    }

    /// The active tab, as a value.
    pub open spec fn active(&self) -> EditorTab
        recommends
            self.active_tab < self.tabs@.len(),
    {
        self.tabs@[self.active_tab as int]
    }

    /// `post` differs from `self` in the active tab alone.
    pub open spec fn unchanged_except_active(&self, post: Editor) -> bool {
        &&& post.tabs@.len() == self.tabs@.len()
        &&& post.active_tab == self.active_tab
        &&& post.next_id == self.next_id
        &&& post.workspace_folder == self.workspace_folder
        &&& forall|i: int|
            0 <= i < self.tabs@.len() && i != self.active_tab ==> post.tabs@[i] == #[trigger] self
                .tabs@[i]
    }

    /// A session holding exactly one fresh, empty, active buffer.
    pub fn new() -> (e: Editor)
        ensures
            e.wf(),
            e.tabs@.len() == 1,
            is_fresh_tab(e.tabs@[0], 0),
            e.active_tab == 0,
            e.next_id == 1,
            e.workspace_folder is None,
    {
        let mut editor = Editor {
            tabs: Vec::new(),
            active_tab: 0,
            next_id: 0,
            workspace_folder: None,
        };
        editor.new_file();
        editor
    }

    /// Appends a fresh untitled buffer and makes it active. Its identity
    /// is taken from the id counter, never reused; its title carries its
    /// 1-based creation ordinal.
    pub fn new_file(&mut self)
        requires
            old(self).tabs_wf(),
            old(self).next_id < usize::MAX,
        ensures
            final(self).wf(),
            final(self).tabs@.len() == old(self).tabs@.len() + 1,
            forall|i: int|
                0 <= i < old(self).tabs@.len() ==> final(self).tabs@[i] == #[trigger] old(
                    self,
                ).tabs@[i],
            is_fresh_tab(final(self).tabs@[old(self).tabs@.len() as int], old(self).next_id),
            final(self).active_tab == old(self).tabs@.len(),
            final(self).next_id == old(self).next_id + 1,
            final(self).workspace_folder == old(self).workspace_folder,
    {
        let num = dec_string((self.next_id + 1) as u64);
        let mut title = String::from_str("Untitled ");
        title.append(num.as_str());
        let tab = EditorTab {
            id: self.next_id,
            title,
            content: String::new(),
            file_path: None,
            modified: false,
            undo_stack: Vec::new(),
            redo_stack: Vec::new(),
            cursor_pos: 0,
            search_highlights: Vec::new(),
        };
        self.tabs.push(tab);
        self.active_tab = self.tabs.len() - 1;
        self.next_id = self.next_id + 1;
    }

    /// Appends a buffer holding text read from a file and makes it
    /// active. The caller supplies the text, the path it came from, and
    /// the title derived from the file name; a failed read is a no-op at
    /// the caller, so no tab is created for it.
    pub fn open_file(&mut self, path: String, title: String, content: String)
        requires
            old(self).tabs_wf(),
            old(self).next_id < usize::MAX,
        ensures
            final(self).wf(),
            final(self).tabs@.len() == old(self).tabs@.len() + 1,
            forall|i: int|
                0 <= i < old(self).tabs@.len() ==> final(self).tabs@[i] == #[trigger] old(
                    self,
                ).tabs@[i],
            is_opened_tab(
                final(self).tabs@[old(self).tabs@.len() as int],
                old(self).next_id,
                path@,
                title@,
                content@,
            ),
            final(self).active_tab == old(self).tabs@.len(),
            final(self).next_id == old(self).next_id + 1,
            final(self).workspace_folder == old(self).workspace_folder,
    {
        let tab = EditorTab {
            id: self.next_id,
            title,
            content,
            file_path: Some(path),
            modified: false,
            undo_stack: Vec::new(),
            redo_stack: Vec::new(),
            cursor_pos: 0,
            search_highlights: Vec::new(),
        };
        self.tabs.push(tab);
        self.active_tab = self.tabs.len() - 1;
        self.next_id = self.next_id + 1;
    }

    /// Removes the active tab, unless it is the sole remaining one: a
    /// session always holds at least one tab, so that case is a no-op.
    /// When the removed tab was the last in order, the selector shifts
    /// left; otherwise it stays and now names the tab that followed.
    pub fn close_file(&mut self)
        requires
            old(self).wf(),
        ensures
            final(self).wf(),
            old(self).tabs@.len() == 1 ==> *final(self) == *old(self),
            old(self).tabs@.len() > 1 ==> {
                &&& final(self).tabs@ == old(self).tabs@.remove(old(self).active_tab as int)
                &&& final(self).active_tab as int == if old(self).active_tab
                    == old(self).tabs@.len() - 1 {
                    old(self).tabs@.len() - 2
                } else {
                    old(self).active_tab as int
                }
                &&& final(self).next_id == old(self).next_id
                &&& final(self).workspace_folder == old(self).workspace_folder
            },
    {
        if self.tabs.len() > 1 {
            self.tabs.remove(self.active_tab);
            if self.active_tab >= self.tabs.len() {
                self.active_tab = self.tabs.len() - 1;
            }
        }
    }

    /// Removes the tab at `index`, unless it is the sole remaining one.
    /// The selector moves one step left whenever it sat at or past the
    /// removed position (and was not already leftmost), so the active tab
    /// is preserved when a tab before it closes.
    pub fn close_tab(&mut self, index: usize)
        requires
            old(self).wf(),
            index < old(self).tabs@.len(),
        ensures
            final(self).wf(),
            old(self).tabs@.len() == 1 ==> *final(self) == *old(self),
            old(self).tabs@.len() > 1 ==> {
                &&& final(self).tabs@ == old(self).tabs@.remove(index as int)
                &&& final(self).active_tab as int == if old(self).active_tab >= index && old(
                    self,
                ).active_tab > 0 {
                    old(self).active_tab - 1
                } else {
                    old(self).active_tab as int
                }
                &&& final(self).next_id == old(self).next_id
                &&& final(self).workspace_folder == old(self).workspace_folder
            },
    {
        if self.tabs.len() > 1 {
            self.tabs.remove(index);
            if self.active_tab >= index && self.active_tab > 0 {
                self.active_tab = self.active_tab - 1;
            }
        }
    }

    /// Makes the tab at `index` active; out-of-range requests are ruled
    /// out by precondition rather than clamped.
    pub fn switch_active(&mut self, index: usize)
        requires
            old(self).wf(),
            index < old(self).tabs@.len(),
        ensures
            final(self).wf(),
            final(self).active_tab == index,
            final(self).tabs == old(self).tabs,
            final(self).next_id == old(self).next_id,
            final(self).workspace_folder == old(self).workspace_folder,
    {
        self.active_tab = index;
    }

    /// The path the active tab would save to, if it has one.
    pub fn save_target(&self) -> (r: Option<String>)
        requires
            self.wf(),
        ensures
            r == self.active().file_path,
    {
        let tab = &self.tabs[self.active_tab];
        match &tab.file_path {
            Some(p) => Some(p.clone()),
            None => None,
        }
    }

    /// Records that the active tab's content now matches its file: called
    /// once a write to its existing path has succeeded.
    pub fn mark_active_saved(&mut self)
        requires
            old(self).wf(),
            old(self).active().file_path is Some,
        ensures
            final(self).wf(),
            old(self).unchanged_except_active(*final(self)),
            final(self).active() == (EditorTab { modified: false, ..old(self).active() }),
    {
        let idx = self.active_tab;
        let tab = &mut self.tabs[idx];
        tab.modified = false;
    }

    /// Attaches a freshly chosen save destination to the active tab:
    /// called once a write to that path has succeeded, it stores the path,
    /// takes the title derived from its file name, and clears the
    /// modification flag.
    pub fn attach_saved_path(&mut self, path: String, title: String)
        requires
            old(self).wf(),
        ensures
            final(self).wf(),
            old(self).unchanged_except_active(*final(self)),
            final(self).active() == (EditorTab {
                file_path: Some(path),
                title: title,
                modified: false,
                ..old(self).active()
            }),
    {
        let idx = self.active_tab;
        let tab = &mut self.tabs[idx];
        tab.file_path = Some(path);
        tab.title = title;
        tab.modified = false;
    }

    /// Commits an edit to the active tab when the new text differs from
    /// the current content; an unchanged text is a no-op.
    pub fn apply_edit(&mut self, new_content: String)
        requires
            old(self).wf(),
        ensures
            final(self).wf(),
            old(self).unchanged_except_active(*final(self)),
            new_content@ == old(self).active().content@ ==> final(self).active() == old(
                self,
            ).active(),
            new_content@ != old(self).active().content@ ==> {
                &&& final(self).active().hist() == spec_record_edit(
                    old(self).active().hist(),
                    new_content@,
                )
                &&& old(self).active().same_meta(final(self).active())
            },
    {
        let idx = self.active_tab;
        let tab = &mut self.tabs[idx];
        if !(new_content == tab.content) {
            tab.record_edit(new_content);
        }
    }

    /// Undoes the most recent edit of the active tab, if any.
    pub fn undo(&mut self)
        requires
            old(self).wf(),
        ensures
            final(self).wf(),
            old(self).unchanged_except_active(*final(self)),
            final(self).active().hist() == spec_undo(old(self).active().hist()),
            old(self).active().same_meta(final(self).active()),
    {
        let idx = self.active_tab;
        let tab = &mut self.tabs[idx];
        tab.undo();
    }

    /// Redoes the most recently undone edit of the active tab, if any.
    pub fn redo(&mut self)
        requires
            old(self).wf(),
        ensures
            final(self).wf(),
            old(self).unchanged_except_active(*final(self)),
            final(self).active().hist() == spec_redo(old(self).active().hist()),
            old(self).active().same_meta(final(self).active()),
    {
        let idx = self.active_tab;
        let tab = &mut self.tabs[idx];
        tab.redo();
    }

    /// Recomputes the active tab's match list for `query`: a full
    /// case-insensitive scan with one-character stride, so overlapping
    /// occurrences are all recorded, in ascending order. An empty query
    /// clears the list. The cursor is left where it was.
    pub fn highlight_search(&mut self, query: &str)
        requires
            old(self).wf(),
        ensures
            final(self).wf(),
            old(self).unchanged_except_active(*final(self)),
            old(self).active().same_buffer(final(self).active()),
            final(self).active().cursor_pos == old(self).active().cursor_pos,
            query@.len() == 0 ==> final(self).active().search_highlights@.len() == 0,
            query@.len() > 0 ==> is_match_list(
                lower_of(old(self).active().content@),
                lower_of(query@),
                final(self).active().search_highlights@,
            ),
    {
        let idx = self.active_tab;
        if query.is_empty() {
            let tab = &mut self.tabs[idx];
            tab.search_highlights.clear();
        } else {
            let tab0 = &self.tabs[idx];
            let content_lower = lowercase(tab0.content.as_str());
            let query_lower = lowercase(query);
            let ms = find_matches(content_lower.as_str(), query_lower.as_str());
            let tab = &mut self.tabs[idx];
            tab.search_highlights = ms;
        }
    }

    /// Empties the active tab's match list; the cursor is not altered.
    pub fn clear_search_highlights(&mut self)
        requires
            old(self).wf(),
        ensures
            final(self).wf(),
            old(self).unchanged_except_active(*final(self)),
            old(self).active().same_buffer(final(self).active()),
            final(self).active().cursor_pos == old(self).active().cursor_pos,
            final(self).active().search_highlights@.len() == 0,
    {
        let idx = self.active_tab;
        let tab = &mut self.tabs[idx];
        tab.search_highlights.clear();
    }

    /// Moves the active tab's cursor to the first match past it, wrapping
    /// around to the first match in the list when none follows. A no-op
    /// when the query is empty or no matches are recorded.
    pub fn find_next(&mut self, query: &str)
        requires
            old(self).wf(),
        ensures
            final(self).wf(),
            query@.len() == 0 || old(self).active().search_highlights@.len() == 0 ==> *final(self)
                == *old(self),
            query@.len() > 0 && old(self).active().search_highlights@.len() > 0 ==> {
                &&& old(self).unchanged_except_active(*final(self))
                &&& old(self).active().same_buffer(final(self).active())
                &&& final(self).active().search_highlights == old(self).active().search_highlights
                &&& final(self).active().cursor_pos as int == next_match_start(
                    old(self).active().search_highlights@,
                    old(self).active().cursor_pos as int,
                )
            },
    {
        let idx = self.active_tab;
        if query.is_empty() {
            return ;
        }
        let tab0 = &self.tabs[idx];
        if tab0.search_highlights.len() == 0 {
            return ;
        }
        let tab = &mut self.tabs[idx];
        let pos = next_start(&tab.search_highlights, tab.cursor_pos);
        tab.cursor_pos = pos;
    }

    /// Moves the active tab's cursor to the last match before it,
    /// wrapping around to the last match in the list when none precedes.
    /// A no-op when the query is empty or no matches are recorded.
    pub fn find_previous(&mut self, query: &str)
        requires
            old(self).wf(),
        ensures
            final(self).wf(),
            query@.len() == 0 || old(self).active().search_highlights@.len() == 0 ==> *final(self)
                == *old(self),
            query@.len() > 0 && old(self).active().search_highlights@.len() > 0 ==> {
                &&& old(self).unchanged_except_active(*final(self))
                &&& old(self).active().same_buffer(final(self).active())
                &&& final(self).active().search_highlights == old(self).active().search_highlights
                &&& final(self).active().cursor_pos as int == prev_match_start(
                    old(self).active().search_highlights@,
                    old(self).active().cursor_pos as int,
                )
            },
    {
        let idx = self.active_tab;
        if query.is_empty() {
            return ;
        }
        let tab0 = &self.tabs[idx];
        if tab0.search_highlights.len() == 0 {
            return ;
        }
        let tab = &mut self.tabs[idx];
        let pos = prev_start(&tab.search_highlights, tab.cursor_pos);
        tab.cursor_pos = pos;
    }

    /// Whether any open buffer differs from its last saved (or loaded)
    /// state: what a shutdown request consults before letting the
    /// session go.
    pub fn has_unsaved_changes(&self) -> (r: bool)
        ensures
            r == exists|i: int| 0 <= i < self.tabs@.len() && (#[trigger] self.tabs@[i]).modified,
    {
        let n = self.tabs.len();
        let mut k: usize = 0;
        while k < n
            invariant
                n == self.tabs@.len(),
                k <= n,
                forall|i: int| 0 <= i < k ==> !(#[trigger] self.tabs@[i]).modified,
            decreases n - k,
        {
            let tab = &self.tabs[k];
            if tab.modified {
                return true;
            }
            k += 1;
        }
        false
    }

    /// Moves `tab`'s cursor to the first match past it, wrapping to the
    /// first match when none follows; a no-op without matches.
    pub fn move_to_next_match(&mut self, tab: &mut EditorTab)
        ensures
            *final(self) == *old(self),
            old(tab).search_highlights@.len() == 0 ==> *final(tab) == *old(tab),
            old(tab).search_highlights@.len() > 0 ==> {
                &&& old(tab).same_buffer(*final(tab))
                &&& final(tab).search_highlights == old(tab).search_highlights
                &&& final(tab).cursor_pos as int == next_match_start(
                    old(tab).search_highlights@,
                    old(tab).cursor_pos as int,
                )
            },
    {
        if tab.search_highlights.len() == 0 {
            return ;
        }
        let pos = next_start(&tab.search_highlights, tab.cursor_pos);
        tab.cursor_pos = pos;
    }

    /// Moves `tab`'s cursor to the last match before it, wrapping to the
    /// last match when none precedes; a no-op without matches.
    pub fn move_to_previous_match(&mut self, tab: &mut EditorTab)
        ensures
            *final(self) == *old(self),
            old(tab).search_highlights@.len() == 0 ==> *final(tab) == *old(tab),
            old(tab).search_highlights@.len() > 0 ==> {
                &&& old(tab).same_buffer(*final(tab))
                &&& final(tab).search_highlights == old(tab).search_highlights
                &&& final(tab).cursor_pos as int == prev_match_start(
                    old(tab).search_highlights@,
                    old(tab).cursor_pos as int,
                )
            },
    {
        if tab.search_highlights.len() == 0 {
            return ;
        }
        let pos = prev_start(&tab.search_highlights, tab.cursor_pos);
        tab.cursor_pos = pos;
    }

    /// How many matches the active tab's last search recorded.
    pub fn get_search_match_count(&self) -> (r: usize)
        requires
            self.wf(),
        ensures
            r == self.active().search_highlights@.len(),
    {
        let tab = &self.tabs[self.active_tab];
        tab.search_highlights.len()
    }

    /// Remembers `folder_path` as the open workspace folder.
    pub fn open_folder(&mut self, folder_path: String)
        requires
            old(self).wf(),
        ensures
            final(self).wf(),
            final(self).workspace_folder == Some(folder_path),
            final(self).tabs == old(self).tabs,
            final(self).active_tab == old(self).active_tab,
            final(self).next_id == old(self).next_id,
    {
        self.workspace_folder = Some(folder_path);
    }

    /// The open workspace folder, if one was chosen.
    pub fn get_workspace_folder(&self) -> (r: Option<&String>)
        ensures
            r is Some <==> self.workspace_folder is Some,
            r is Some ==> r->0 == self.workspace_folder->0,
    {
        self.workspace_folder.as_ref()
    }
}

} // verus!

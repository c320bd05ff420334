//! Undo/redo history model: two bounded stacks of full-content snapshots
//! per buffer, with diverging-edit semantics (a fresh edit invalidates the
//! redo stack) and FIFO eviction at the capacity bound.

use vstd::prelude::*;

verus! {

/// Most snapshots the undo stack may hold; the oldest entry is evicted
/// first once the bound would be exceeded.
pub const HISTORY_CAP: usize = 100;

/// The mathematical state of one buffer's text and history: the current
/// content and the two snapshot stacks, most recent snapshot last.
pub ghost struct HistoryModel {
    pub content: Seq<char>,
    pub undo: Seq<Seq<char>>,
    pub redo: Seq<Seq<char>>,
    pub modified: bool,
}

impl HistoryModel {
    /// The two stacks together never hold more snapshots than the cap, so
    /// in particular the undo stack stays within it: committing an edit
    /// caps the undo stack and clears the redo stack, and undoing or
    /// redoing only moves snapshots between the two.
    pub open spec fn inv(self) -> bool {
        self.undo.len() + self.redo.len() <= HISTORY_CAP
    }
}

/// Committing an edit: the prior content is pushed as a snapshot (evicting
/// the oldest one at the cap), the redo stack is cleared unconditionally,
/// and the buffer becomes modified.
pub open spec fn spec_record_edit(h: HistoryModel, new_content: Seq<char>) -> HistoryModel {
    let pushed = h.undo.push(h.content);
    HistoryModel {
        content: new_content,
        undo: if pushed.len() > HISTORY_CAP {
            pushed.drop_first()
        } else {
            pushed
        },
        redo: Seq::empty(),
        modified: true,
    }
}

/// Undoing: with a snapshot available, the current content moves to the
/// redo stack and the most recent snapshot becomes current; with none,
/// nothing changes.
pub open spec fn spec_undo(h: HistoryModel) -> HistoryModel {
    if h.undo.len() == 0 {
        h
    } else {
        HistoryModel {
            content: h.undo.last(),
            undo: h.undo.drop_last(),
            redo: h.redo.push(h.content),
            modified: true,
        }
    }
}

/// Redoing: the mirror image of undoing, consuming the redo stack.
pub open spec fn spec_redo(h: HistoryModel) -> HistoryModel {
    if h.redo.len() == 0 {
        h
    } else {
        HistoryModel {
            content: h.redo.last(),
            undo: h.undo.push(h.content),
            redo: h.redo.drop_last(),
            modified: true,
        }
    }
}

/// Undo/redo inverse law: whatever the starting state, undoing right after
/// an edit restores the pre-edit content, and redoing right after that
/// undo restores the edited state exactly.
pub proof fn lemma_undo_redo_inverse(h: HistoryModel, new_content: Seq<char>)
    ensures
        spec_undo(spec_record_edit(h, new_content)).content == h.content,
        spec_redo(spec_undo(spec_record_edit(h, new_content))) == spec_record_edit(h, new_content),
{
    let e = spec_record_edit(h, new_content);
    assert(e.undo.len() > 0);
    assert(e.undo.last() == h.content);
    let u = spec_undo(e);
    assert(u.redo.last() == new_content);
    let r = spec_redo(u);
    assert(r.undo =~= e.undo);
    assert(r.redo =~= e.redo);
}

/// Redo invalidation law: a fresh edit leaves the redo stack empty, and
/// redo is a no-op on any state whose redo stack is empty — in particular
/// right after an undo followed by a new edit.
pub proof fn lemma_redo_invalidation(h: HistoryModel, new_content: Seq<char>)
    ensures
        spec_record_edit(h, new_content).redo.len() == 0,
        spec_redo(spec_record_edit(spec_undo(h), new_content)) == spec_record_edit(
            spec_undo(h),
            new_content,
        ),
{
}

/// History cap law: committing an edit keeps the undo stack within the
/// capacity bound, so no more than `HISTORY_CAP` snapshots ever survive.
pub proof fn lemma_history_cap(h: HistoryModel, new_content: Seq<char>)
    requires
        h.inv(),
    ensures
        spec_record_edit(h, new_content).inv(),
        h.undo.len() == HISTORY_CAP ==> spec_record_edit(h, new_content).undo.len()
            == HISTORY_CAP,
{
}

/// The trailing window of at most `HISTORY_CAP` snapshots: what FIFO
/// eviction leaves of a snapshot sequence.
pub open spec fn cap_tail(s: Seq<Seq<char>>) -> Seq<Seq<char>> {
    if s.len() <= HISTORY_CAP {
        s
    } else {
        s.skip(s.len() - HISTORY_CAP)
    }
}

/// The buffer state after committing each text of `cs` in turn.
pub open spec fn apply_edits(h: HistoryModel, cs: Seq<Seq<char>>) -> HistoryModel
    decreases cs.len(),
{
    if cs.len() == 0 {
        h
    } else {
        apply_edits(spec_record_edit(h, cs[0]), cs.drop_first())
    }
}

/// The buffer state after undoing `n` times.
pub open spec fn undo_n(h: HistoryModel, n: nat) -> HistoryModel
    decreases n,
{
    if n == 0 {
        h
    } else {
        undo_n(spec_undo(h), (n - 1) as nat)
    }
}

/// Within the invariant, committing an edit keeps exactly the trailing
/// window of the pushed snapshots.
proof fn lemma_record_edit_undo(h: HistoryModel, c: Seq<char>)
    requires
        h.inv(),
    ensures
        spec_record_edit(h, c).undo == cap_tail(h.undo.push(h.content)),
{
    let pushed = h.undo.push(h.content);
    if pushed.len() > HISTORY_CAP {
        assert(pushed.drop_first() =~= pushed.skip(pushed.len() - HISTORY_CAP));
    }
}

/// Taking the trailing window first never changes the window of the
/// whole.
proof fn lemma_cap_tail_absorb(a: Seq<Seq<char>>, b: Seq<Seq<char>>)
    ensures
        cap_tail(cap_tail(a) + b) == cap_tail(a + b),
{
    if a.len() <= HISTORY_CAP {
        assert(cap_tail(a) + b =~= a + b);
    } else if b.len() == 0 {
        assert(cap_tail(a) + b =~= cap_tail(a));
        assert(a + b =~= a);
        assert(cap_tail(cap_tail(a) + b) =~= cap_tail(a + b));
    } else {
        assert(cap_tail(cap_tail(a) + b) =~= cap_tail(a + b));
    }
}

/// What a run of edits leaves behind: the last text as content, an
/// empty redo stack, and the trailing window of the snapshots pushed
/// along the way.
proof fn lemma_apply_edits_shape(h: HistoryModel, cs: Seq<Seq<char>>)
    requires
        h.inv(),
        cs.len() > 0,
    ensures
        apply_edits(h, cs) == (HistoryModel {
            content: cs.last(),
            undo: cap_tail(h.undo.push(h.content) + cs.drop_last()),
            redo: Seq::empty(),
            modified: true,
        }),
    decreases cs.len(),
{
    let h1 = spec_record_edit(h, cs[0]);
    lemma_record_edit_undo(h, cs[0]);
    lemma_history_cap(h, cs[0]);
    let a = h.undo.push(h.content);
    if cs.len() == 1 {
        assert(cs.drop_last() =~= Seq::<Seq<char>>::empty());
        assert(a + cs.drop_last() =~= a);
        assert(apply_edits(h1, cs.drop_first()) == h1);
    } else {
        lemma_apply_edits_shape(h1, cs.drop_first());
        let b = cs.drop_first().drop_last();
        assert(h1.undo.push(h1.content) + b =~= cap_tail(a) + (seq![cs[0]] + b));
        lemma_cap_tail_absorb(a, seq![cs[0]] + b);
        assert(a + (seq![cs[0]] + b) =~= a + cs.drop_last());
        assert(cs.drop_first().last() == cs.last());
    }
}

/// One more undo peels off the outermost state.
proof fn lemma_undo_n_peel(h: HistoryModel, n: nat)
    ensures
        undo_n(h, n + 1) == spec_undo(undo_n(h, n)),
    decreases n,
{
    if n == 0 {
        assert(undo_n(h, 1) == undo_n(spec_undo(h), 0));
        assert(undo_n(spec_undo(h), 0) == spec_undo(h));
        assert(undo_n(h, 0) == h);
    } else {
        lemma_undo_n_peel(spec_undo(h), (n - 1) as nat);
        assert(undo_n(h, n + 1) == undo_n(spec_undo(h), n));
        assert(undo_n(h, n) == undo_n(spec_undo(h), (n - 1) as nat));
    }
}

/// Undoing `k` times walks back through the snapshot stack: the top
/// `k` entries are consumed and the `k`-th entry from the top is the
/// content reached.
proof fn lemma_undo_n_state(h: HistoryModel, k: nat)
    requires
        k <= h.undo.len(),
    ensures
        undo_n(h, k).undo =~= h.undo.subrange(0, h.undo.len() - k),
        k > 0 ==> undo_n(h, k).content == h.undo[h.undo.len() - k],
        k == 0 ==> undo_n(h, k) == h,
    decreases k,
{
    if k == 0 {
        assert(h.undo.subrange(0, h.undo.len() as int) =~= h.undo);
    } else {
        let h1 = spec_undo(h);
        lemma_undo_n_state(h1, (k - 1) as nat);
        assert(h1.undo =~= h.undo.drop_last());
        assert(h.undo.drop_last().subrange(0, h.undo.len() - k) =~= h.undo.subrange(
            0,
            h.undo.len() - k,
        ));
        if k > 1 {
            assert(h1.undo[h1.undo.len() - (k - 1)] == h.undo[h.undo.len() - k]);
        }
    }
}

/// History cap law, run out in full: from a buffer with no history, a
/// run of edits longer than the cap leaves exactly `HISTORY_CAP`
/// snapshots. Undoing `HISTORY_CAP` times then lands on the oldest
/// survivor — the text produced that many edits from the end, never the
/// original content — and every further undo changes nothing.
pub proof fn lemma_history_cap_exhausted(h: HistoryModel, cs: Seq<Seq<char>>)
    requires
        h.undo.len() == 0,
        h.redo.len() == 0,
        cs.len() > HISTORY_CAP,
    ensures
        apply_edits(h, cs).undo.len() == HISTORY_CAP,
        undo_n(apply_edits(h, cs), HISTORY_CAP as nat).content == cs[cs.len() - HISTORY_CAP - 1],
        undo_n(apply_edits(h, cs), HISTORY_CAP as nat + 1) == undo_n(
            apply_edits(h, cs),
            HISTORY_CAP as nat,
        ),
{
    lemma_apply_edits_shape(h, cs);
    let hf = apply_edits(h, cs);
    let snaps = h.undo.push(h.content) + cs.drop_last();
    assert(snaps.len() == cs.len());
    assert(hf.undo =~= snaps.skip(snaps.len() - HISTORY_CAP));
    assert(hf.undo.len() == HISTORY_CAP);
    lemma_undo_n_state(hf, HISTORY_CAP as nat);
    assert(hf.undo[0] == snaps[snaps.len() - HISTORY_CAP]);
    assert(snaps[cs.len() - HISTORY_CAP] == cs[cs.len() - HISTORY_CAP - 1]);
    let g = undo_n(hf, HISTORY_CAP as nat);
    assert(g.undo.len() == 0);
    assert(spec_undo(g) == g);
    lemma_undo_n_peel(hf, HISTORY_CAP as nat);
}

} // verus!

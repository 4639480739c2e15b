//! The viewer's state: the four views, the ordered sort-priority list, the
//! grouping cursor, the pane selection and the row cursor, kept consistent
//! with the active row set.

use vstd::prelude::*;
use crate::aggregate::{
    abs_album_rows, abs_artist_rows, abs_date_rows, abs_none_rows, spec_by_artist, spec_by_album,
    spec_by_date, spec_ungrouped, get_data_vec_album, get_data_vec_artist, get_data_vec_date,
    get_data_vec_none,
};
use crate::order::{le_fn, sort_rows, Sort, SortDirection};
use crate::sorting::{
    lex2, lemma_lex2_total_preorder, lemma_stable_sort_by_compose, lemma_stable_sort_by_trivial,
    stable_sort_by, total_preorder,
};
use crate::store::Store;
use crate::views::{SongDataAlbum, SongDataArtist, SongDataDate, SongDataNone};

verus! {

/// Which pane of the viewer holds the keyboard focus.
#[derive(Clone, Copy, Debug, Default, PartialEq, Eq, Structural)]
pub enum SelectedTab {
    #[default]
    Table,
    Sort,
    Group,
}

impl SelectedTab {
    /// The pane before this one in the focus cycle.
    pub open spec fn spec_prev(self) -> SelectedTab {
        match self {
            SelectedTab::Table => SelectedTab::Sort,
            SelectedTab::Group => SelectedTab::Table,
            SelectedTab::Sort => SelectedTab::Group,
        }
    }

    /// The pane after this one in the focus cycle.
    pub open spec fn spec_next(self) -> SelectedTab {
        match self {
            SelectedTab::Table => SelectedTab::Group,
            SelectedTab::Group => SelectedTab::Sort,
            SelectedTab::Sort => SelectedTab::Table,
        }
    }

    /// Moves the focus to the previous pane.
    pub fn prev(&mut self)
        ensures
            *final(self) == old(self).spec_prev(),
    {
        *self = match self {
            SelectedTab::Table => SelectedTab::Sort,
            SelectedTab::Group => SelectedTab::Table,
            SelectedTab::Sort => SelectedTab::Group,
        }
    }

    /// Moves the focus to the next pane.
    pub fn next(&mut self)
        ensures
            *final(self) == old(self).spec_next(),
    {
        *self = match self {
            SelectedTab::Table => SelectedTab::Group,
            SelectedTab::Group => SelectedTab::Sort,
            SelectedTab::Sort => SelectedTab::Table,
        }
    }
}

/// The grouping cursor: which of the four views is shown. It moves along
/// `Ungrouped -> Date -> Artist -> Album` and clamps at both ends.
#[derive(Clone, Copy, Debug, Default, PartialEq, Eq, Structural)]
pub enum Group {
    #[default]
    Ungrouped,
    Date,
    Artist,
    Album,
}

impl Group {
    /// The position of the cursor along the grouping order.
    pub open spec fn rank(self) -> nat {
        match self {
            Group::Ungrouped => 0,
            Group::Date => 1,
            Group::Artist => 2,
            Group::Album => 3,
        }
    }

    /// One step back, clamped at `Ungrouped`.
    pub open spec fn spec_prev(self) -> Group {
        match self {
            Group::Ungrouped => Group::Ungrouped,
            Group::Date => Group::Ungrouped,
            Group::Artist => Group::Date,
            Group::Album => Group::Artist,
        }
    }

    /// One step forward, clamped at `Album`.
    pub open spec fn spec_next(self) -> Group {
        match self {
            Group::Ungrouped => Group::Date,
            Group::Date => Group::Artist,
            Group::Artist => Group::Album,
            Group::Album => Group::Album,
        }
    }

    /// Moves the cursor one grouping back; at `Ungrouped` it stays.
    pub fn prev(&mut self)
        ensures
            *final(self) == old(self).spec_prev(),
    {
        *self = match self {
            Group::Ungrouped => Group::Ungrouped,
            Group::Date => Group::Ungrouped,
            Group::Artist => Group::Date,
            Group::Album => Group::Artist,
        }
    }

    /// Moves the cursor one grouping forward; at `Album` it stays.
    pub fn next(&mut self)
        ensures
            *final(self) == old(self).spec_next(),
    {
        *self = match self {
            Group::Ungrouped => Group::Date,
            Group::Date => Group::Artist,
            Group::Artist => Group::Album,
            Group::Album => Group::Album,
        }
    }

    /// The cursor's position, for the grouping panel's selection.
    pub fn index(&self) -> (r: usize)
        ensures
            r as nat == self.rank(),
    {
        match self {
            Group::Ungrouped => 0,
            Group::Date => 1,
            Group::Artist => 2,
            Group::Album => 3,
        }
    }
}

/// Each sort field appears at most once in the list.
pub open spec fn sort_fields_unique(prio: Seq<SortDirection>) -> bool {
    forall|i: int, j: int| 0 <= i < j < prio.len() ==> prio[i].0 != prio[j].0
}

/// The rows after the sequential stable sort: one full stable pass per
/// priority entry, front to back — the earliest entry's pass runs first, the
/// last entry's pass runs last — so the last entry ends up dominant and the
/// first is the weakest tie-break.
pub open spec fn spec_data_sort(rows: Seq<SongDataNone>, prio: Seq<SortDirection>) -> Seq<
    SongDataNone,
>
    decreases prio.len(),
{
    if prio.len() == 0 {
        rows
    } else {
        stable_sort_by(
            le_fn::<SortDirection, SongDataNone>(prio.last()),
            spec_data_sort(rows, prio.drop_last()),
        )
    }
}

/// The sequential stable sort keeps the number of rows.
pub proof fn lemma_spec_data_sort_len(rows: Seq<SongDataNone>, prio: Seq<SortDirection>)
    ensures
        spec_data_sort(rows, prio).len() == rows.len(),
    decreases prio.len(),
{
    if prio.len() > 0 {
        lemma_spec_data_sort_len(rows, prio.drop_last());
        <SongDataNone as crate::order::RowOrd<SortDirection>>::le_total(prio.last());
        crate::sorting::lemma_stable_sort_by_ensures(
            le_fn::<SortDirection, SongDataNone>(prio.last()),
            spec_data_sort(rows, prio.drop_last()),
        );
    }
}

/// The single compound comparator of a priority list: the orders of the
/// entries taken back to front — the display order — each refining the ties
/// of the ones after it. The dominant key is the list's last entry; the
/// weakest tie-break is its first.
pub open spec fn compound_le(prio: Seq<SortDirection>) -> spec_fn(
    SongDataNone,
    SongDataNone,
) -> bool
    decreases prio.len(),
{
    if prio.len() == 0 {
        |a: SongDataNone, b: SongDataNone| true
    } else {
        lex2(le_fn::<SortDirection, SongDataNone>(prio.last()), compound_le(prio.drop_last()))
    }
}

/// The compound comparator of any priority list is a total preorder.
pub proof fn lemma_compound_le_total(prio: Seq<SortDirection>)
    ensures
        total_preorder(compound_le(prio)),
    decreases prio.len(),
{
    if prio.len() == 0 {
        let le = compound_le(prio);
        assert(forall|a: SongDataNone, b: SongDataNone| #[trigger] le(a, b));
    } else {
        lemma_compound_le_total(prio.drop_last());
        <SongDataNone as crate::order::RowOrd<SortDirection>>::le_total(prio.last());
        lemma_lex2_total_preorder(
            le_fn::<SortDirection, SongDataNone>(prio.last()),
            compound_le(prio.drop_last()),
        );
    }
}

/// Sort equivalence: the sequential-stable-sort procedure — one full stable
/// pass per priority entry, front to back — produces exactly the ordering of
/// a single stable sort under the compound comparator ordered by the reversed
/// list.
pub proof fn lemma_sort_equivalence(rows: Seq<SongDataNone>, prio: Seq<SortDirection>)
    ensures
        spec_data_sort(rows, prio) == stable_sort_by(compound_le(prio), rows),
    decreases prio.len(),
{
    if prio.len() == 0 {
        let le = compound_le(prio);
        assert(forall|a: SongDataNone, b: SongDataNone| #[trigger] le(a, b));
        lemma_stable_sort_by_trivial(le, rows);
    } else {
        lemma_sort_equivalence(rows, prio.drop_last());
        lemma_compound_le_total(prio.drop_last());
        <SongDataNone as crate::order::RowOrd<SortDirection>>::le_total(prio.last());
        lemma_stable_sort_by_compose(
            le_fn::<SortDirection, SongDataNone>(prio.last()),
            compound_le(prio.drop_last()),
            rows,
        );
    }
}

/// The per-artist inclusion filter: every artist is included until a flag is
/// recorded for it, and the most recently recorded flag wins.
#[derive(Debug)]
pub struct FilterSet {
    pub entries: Vec<(String, bool)>,
}

/// The flag the filter holds for an artist: that of the latest entry naming
/// it, or included when none does.
pub open spec fn spec_flag(entries: Seq<(String, bool)>, artist: Seq<char>) -> bool
    decreases entries.len(),
{
    if entries.len() == 0 {
        true
    } else if entries.last().0@ == artist {
        entries.last().1
    } else {
        spec_flag(entries.drop_last(), artist)
    }
}

/// Entries that do not name the artist do not change its flag.
proof fn lemma_spec_flag_prefix(entries: Seq<(String, bool)>, artist: Seq<char>, i: int)
    requires
        0 <= i <= entries.len(),
        forall|k: int| i <= k < entries.len() ==> (#[trigger] entries[k]).0@ != artist,
    ensures
        spec_flag(entries, artist) == spec_flag(entries.take(i), artist),
    decreases entries.len() - i,
{
    if i < entries.len() {
        let pre = entries.drop_last();
        assert(forall|k: int| 0 <= k < pre.len() ==> pre[k] == entries[k]);
        lemma_spec_flag_prefix(pre, artist, i);
        assert(pre.take(i) =~= entries.take(i));
    } else {
        assert(entries.take(i) =~= entries);
    }
}

impl FilterSet {
    /// Whether the filter includes the artist.
    pub open spec fn spec_included(self, artist: Seq<char>) -> bool {
        spec_flag(self.entries@, artist)
    }

    /// A filter that includes every artist.
    pub fn new() -> (f: FilterSet)
        ensures
            forall|a: Seq<char>| #[trigger] f.spec_included(a),
    {
        let f = FilterSet { entries: Vec::new() };
        proof {
            assert(forall|a: Seq<char>| #[trigger] spec_flag(f.entries@, a));
        }
        f
    }

    /// Records a flag for an artist; only that artist's inclusion changes.
    pub fn set(&mut self, artist: String, included: bool)
        ensures
            final(self).spec_included(artist@) == included,
            forall|a: Seq<char>|
                a != artist@ ==> #[trigger] final(self).spec_included(a) == old(
                    self,
                ).spec_included(a),
    {
        let ghost pre = self.entries@;
        self.entries.push((artist, included));
        proof {
            assert(self.entries@.drop_last() =~= pre);
        }
    }

    /// Whether the filter includes the artist.
    pub fn included(&self, artist: &String) -> (r: bool)
        ensures
            r == self.spec_included(artist@),
    {
        let mut i: usize = self.entries.len();
        while i > 0
            invariant
                i <= self.entries.len(),
                self.entries@.len() == self.entries.len(),
                forall|k: int|
                    i <= k < self.entries@.len() ==> (#[trigger] self.entries@[k]).0@ != artist@,
            decreases i,
        {
            i = i - 1;
            let e = &self.entries[i];
            if e.0 == *artist {
                proof {
                    lemma_spec_flag_prefix(self.entries@, artist@, i + 1);
                    assert(self.entries@.take(i + 1).last() == self.entries@[i as int]);
                    assert(self.entries@.take(i + 1).len() == i + 1);
                }
                return e.1;
            }
        }
        proof {
            lemma_spec_flag_prefix(self.entries@, artist@, 0);
            assert(self.entries@.take(0).len() == 0);
        }
        true
    }
}

/// The ungrouped rows the filter keeps: exactly those whose artist it
/// includes, in their given order.
pub fn apply_filter(rows: Vec<SongDataNone>, filter: &FilterSet) -> (v: Vec<SongDataNone>)
    ensures
        v@ == rows@.filter(|r: SongDataNone| filter.spec_included(r.artist@)),
{
    let ghost orig = rows@;
    let ghost pred = |r: SongDataNone| filter.spec_included(r.artist@);
    let mut rest = rows;
    let mut v: Vec<SongDataNone> = Vec::new();
    let ghost mut i: int = 0;
    proof {
        reveal(Seq::filter);
        assert(v@ =~= orig.take(0).filter(pred));
        assert(rest@ =~= orig.skip(0));
    }
    while rest.len() > 0
        invariant
            0 <= i <= orig.len(),
            rest@ == orig.skip(i),
            v@ == orig.take(i).filter(pred),
            pred == (|r: SongDataNone| filter.spec_included(r.artist@)),
        decreases rest@.len(),
    {
        proof {
            reveal(Seq::filter);
            assert(orig.take(i + 1).drop_last() =~= orig.take(i));
            assert(orig.skip(i)[0] == orig[i]);
            assert(orig.take(i + 1).last() == orig[i]);
            assert(orig.take(i + 1).filter(pred) == if pred(orig[i]) {
                orig.take(i).filter(pred).push(orig[i])
            } else {
                orig.take(i).filter(pred)
            });
        }
        let row = rest.remove(0);
        proof {
            assert(row == orig[i]);
            assert(rest@ =~= orig.skip(i + 1));
        }
        if filter.included(&row.artist) {
            proof {
                assert(pred(orig[i]));
            }
            v.push(row);
            proof {
                assert(v@ =~= orig.take(i).filter(pred).push(orig[i]));
            }
        } else {
            proof {
                assert(!pred(orig[i]));
            }
        }
        proof {
            i = i + 1;
        }
    }
    proof {
        assert(orig.take(orig.len() as int) =~= orig);
        assert(orig.skip(i).len() == 0);
    }
    v
}

/// The viewer's whole interactive state.
#[derive(Debug)]
pub struct TuiState {
    pub data_vec_none: Vec<SongDataNone>,
    pub data_vec_date: Vec<SongDataDate>,
    pub data_vec_artist: Vec<SongDataArtist>,
    pub data_vec_album: Vec<SongDataAlbum>,
    pub sort_priority: Vec<SortDirection>,
    pub group: Group,
    pub selected_tab: SelectedTab,
    pub table_index: usize,
    pub sort_index: usize,
    pub group_index: usize,
    pub scroll_len: usize,
    pub weighted: bool,
    pub exit: bool,
}

impl TuiState {
    /// How many rows the active view holds.
    pub open spec fn active_len(self) -> nat {
        match self.group {
            Group::Ungrouped => self.data_vec_none@.len(),
            Group::Date => self.data_vec_date@.len(),
            Group::Artist => self.data_vec_artist@.len(),
            Group::Album => self.data_vec_album@.len(),
        }
    }

    /// The viewer state's invariant: exactly the four sort fields, each once;
    /// the panel cursors within their panels; the grouping panel's selection
    /// at the cursor; the scroll extent equal to the active view's row count;
    /// and the selected row within the active view.
    pub open spec fn wf(self) -> bool {
        &&& self.sort_priority@.len() == 4
        &&& sort_fields_unique(self.sort_priority@)
        &&& self.sort_index < 4
        &&& self.group_index == self.group.rank()
        &&& self.scroll_len == self.active_len()
        &&& if self.active_len() == 0 {
            self.table_index == 0
        } else {
            self.table_index < self.active_len()
        }
    }

    /// How many rows the active view holds.
    pub fn active_len_exec(&self) -> (n: usize)
        ensures
            n as nat == self.active_len(),
    {
        match self.group {
            Group::Ungrouped => self.data_vec_none.len(),
            Group::Date => self.data_vec_date.len(),
            Group::Artist => self.data_vec_artist.len(),
            Group::Album => self.data_vec_album.len(),
        }
    }

    /// A fresh viewer over the given views: the ungrouped table focused and
    /// selected at its first row, grouping at `None`, the default sort
    /// priority (plays dominant, descending), the plain display.
    pub fn new(
        data_vec_none: Vec<SongDataNone>,
        data_vec_date: Vec<SongDataDate>,
        data_vec_artist: Vec<SongDataArtist>,
        data_vec_album: Vec<SongDataAlbum>,
    ) -> (s: TuiState)
        ensures
            s.wf(),
            s.data_vec_none == data_vec_none,
            s.data_vec_date == data_vec_date,
            s.data_vec_artist == data_vec_artist,
            s.data_vec_album == data_vec_album,
            s.sort_priority@ == seq![
                SortDirection(Sort::Title, false),
                SortDirection(Sort::Album, false),
                SortDirection(Sort::Artist, false),
                SortDirection(Sort::Plays, true),
            ],
            s.group == Group::Ungrouped,
            s.selected_tab == SelectedTab::Table,
            s.table_index == 0,
            s.sort_index == 0,
            s.weighted == false,
            s.exit == false,
    {
        let length = data_vec_none.len();
        let mut sort_priority: Vec<SortDirection> = Vec::new();
        sort_priority.push(SortDirection(Sort::Title, false));
        sort_priority.push(SortDirection(Sort::Album, false));
        sort_priority.push(SortDirection(Sort::Artist, false));
        sort_priority.push(SortDirection(Sort::Plays, true));
        proof {
            assert(sort_priority@ =~= seq![
                SortDirection(Sort::Title, false),
                SortDirection(Sort::Album, false),
                SortDirection(Sort::Artist, false),
                SortDirection(Sort::Plays, true),
            ]);
        }
        TuiState {
            data_vec_none,
            data_vec_date,
            data_vec_artist,
            data_vec_album,
            sort_priority,
            group: Group::Ungrouped,
            selected_tab: SelectedTab::Table,
            table_index: 0,
            sort_index: 0,
            group_index: 0,
            scroll_len: length,
            weighted: false,
            exit: false,
        }
    }

    /// Re-sorts the ungrouped view: one full stable pass per priority entry,
    /// front to back. Only the row order changes, and it changes to exactly
    /// the sequential stable sort of the list — which, by
    /// [`lemma_sort_equivalence`], is the order of a single stable sort under
    /// the compound comparator of the reversed list.
    pub fn data_sort(&mut self)
        ensures
            final(self).data_vec_none@ == spec_data_sort(
                old(self).data_vec_none@,
                old(self).sort_priority@,
            ),
            final(self).data_vec_none@.len() == old(self).data_vec_none@.len(),
            *final(self) == (TuiState { data_vec_none: final(self).data_vec_none, ..*old(self) }),
    {
        let ghost orig = self.data_vec_none@;
        let ghost prio = self.sort_priority@;
        let mut i: usize = 0;
        proof {
            assert(prio.take(0) =~= Seq::<SortDirection>::empty());
        }
        while i < self.sort_priority.len()
            invariant
                i <= self.sort_priority.len(),
                self.sort_priority@ == prio,
                self.data_vec_none@ == spec_data_sort(orig, prio.take(i as int)),
                *self == (TuiState { data_vec_none: self.data_vec_none, ..*old(self) }),
                orig == old(self).data_vec_none@,
            decreases self.sort_priority.len() - i,
        {
            let k = self.sort_priority[i];
            let ghost before = self.data_vec_none@;
            sort_rows(&mut self.data_vec_none, &k);
            proof {
                assert(prio.take(i + 1).drop_last() =~= prio.take(i as int));
                assert(prio.take(i + 1).last() == k);
            }
            i = i + 1;
        }
        proof {
            assert(prio.take(prio.len() as int) =~= prio);
            lemma_spec_data_sort_len(orig, prio);
        }
    }

    /// Selecting a sort entry promotes it: the entry leaves its place, moves
    /// to the end of the list — the dominant position — and the table is
    /// re-sorted under the new priority.
    pub fn sort_select(&mut self)
        requires
            old(self).wf(),
        ensures
            final(self).wf(),
            ({
                let s = 3 - old(self).sort_index as int;
                final(self).sort_priority@ == old(self).sort_priority@.remove(s).push(
                    old(self).sort_priority@[s],
                )
            }),
            final(self).data_vec_none@ == spec_data_sort(
                old(self).data_vec_none@,
                final(self).sort_priority@,
            ),
            *final(self) == (TuiState {
                sort_priority: final(self).sort_priority,
                data_vec_none: final(self).data_vec_none,
                ..*old(self)
            }),
    {
        let ghost oldp = self.sort_priority@;
        // the panel shows the list reversed, so the selected panel row maps to
        // the mirrored list position
        let s = self.sort_priority.len() - self.sort_index - 1;
        let entry = self.sort_priority.remove(s);
        self.sort_priority.push(entry);
        proof {
            oldp.remove_ensures(s as int);
            let newp = self.sort_priority@;
            assert(newp =~= oldp.remove(s as int).push(oldp[s as int]));
            assert forall|i: int, j: int|
                0 <= i < j < newp.len() implies newp[i].0 != newp[j].0 by {
                if j < newp.len() - 1 {
                    if i < s {
                        assert(newp[i] == oldp[i]);
                    } else {
                        assert(newp[i] == oldp[i + 1]);
                    }
                    if j < s {
                        assert(newp[j] == oldp[j]);
                    } else {
                        assert(newp[j] == oldp[j + 1]);
                    }
                } else {
                    assert(newp[j] == oldp[s as int]);
                    if i < s {
                        assert(newp[i] == oldp[i]);
                    } else {
                        assert(newp[i] == oldp[i + 1]);
                    }
                }
            }
        }
        self.data_sort();
    }

    /// Reversing a sort entry toggles its descending flag in place, keeping
    /// its precedence, and the table is re-sorted under the new priority.
    pub fn sort_reverse(&mut self)
        requires
            old(self).wf(),
        ensures
            final(self).wf(),
            ({
                let s = 3 - old(self).sort_index as int;
                let e = old(self).sort_priority@[s];
                final(self).sort_priority@ == old(self).sort_priority@.update(
                    s,
                    SortDirection(e.0, !e.1),
                )
            }),
            final(self).data_vec_none@ == spec_data_sort(
                old(self).data_vec_none@,
                final(self).sort_priority@,
            ),
            *final(self) == (TuiState {
                sort_priority: final(self).sort_priority,
                data_vec_none: final(self).data_vec_none,
                ..*old(self)
            }),
    {
        let ghost oldp = self.sort_priority@;
        let s = self.sort_priority.len() - self.sort_index - 1;
        let entry = self.sort_priority[s];
        self.sort_priority.set(s, SortDirection(entry.0, !entry.1));
        proof {
            let newp = self.sort_priority@;
            assert(newp =~= oldp.update(s as int, SortDirection(oldp[s as int].0, !oldp[s as int].1)));
            assert forall|i: int, j: int|
                0 <= i < j < newp.len() implies newp[i].0 != newp[j].0 by {
                assert(newp[i].0 == oldp[i].0);
                assert(newp[j].0 == oldp[j].0);
            }
        }
        self.data_sort();
    }

    /// Moves the sort panel's selection up, clamped at the top.
    pub fn sort_prev(&mut self)
        ensures
            final(self).sort_index == if old(self).sort_index > 0 {
                old(self).sort_index - 1
            } else {
                0
            },
            *final(self) == (TuiState { sort_index: final(self).sort_index, ..*old(self) }),
    {
        if self.sort_index > 0 {
            self.sort_index = self.sort_index - 1;
        }
    }

    /// Moves the sort panel's selection down, clamped at its last entry.
    pub fn sort_next(&mut self)
        requires
            old(self).wf(),
        ensures
            final(self).wf(),
            final(self).sort_index == if old(self).sort_index < 3 {
                old(self).sort_index + 1
            } else {
                old(self).sort_index as int
            },
            *final(self) == (TuiState { sort_index: final(self).sort_index, ..*old(self) }),
    {
        if self.sort_index < 3 {
            self.sort_index = self.sort_index + 1;
        }
    }

    /// Moves the selected row up, clamped at the first row.
    pub fn table_up(&mut self)
        ensures
            final(self).table_index == if old(self).table_index > 0 {
                old(self).table_index - 1
            } else {
                0
            },
            *final(self) == (TuiState { table_index: final(self).table_index, ..*old(self) }),
    {
        if self.table_index > 0 {
            self.table_index = self.table_index - 1;
        }
    }

    /// Moves the selected row down, clamped at the last row of the active
    /// view.
    pub fn table_down(&mut self)
        requires
            old(self).wf(),
        ensures
            final(self).wf(),
            final(self).table_index == if old(self).table_index + 1 < old(self).active_len() {
                old(self).table_index + 1
            } else {
                old(self).table_index as int
            },
            *final(self) == (TuiState { table_index: final(self).table_index, ..*old(self) }),
    {
        let len = self.active_len_exec();
        if self.table_index + 1 < len {
            self.table_index = self.table_index + 1;
        }
    }

    /// Jumps to the first row.
    pub fn table_start(&mut self)
        ensures
            final(self).table_index == 0,
            *final(self) == (TuiState { table_index: 0, ..*old(self) }),
    {
        self.table_index = 0;
    }

    /// Jumps to the last row of the active view.
    pub fn table_end(&mut self)
        ensures
            final(self).table_index == if old(self).active_len() == 0 {
                0
            } else {
                old(self).active_len() - 1
            },
            *final(self) == (TuiState { table_index: final(self).table_index, ..*old(self) }),
    {
        let len = self.active_len_exec();
        self.table_index = if len == 0 {
            0
        } else {
            len - 1
        };
    }

    /// Recomputes the scroll extent from the active view's row count.
    pub fn scroll_reset(&mut self)
        ensures
            final(self).scroll_len == old(self).active_len(),
            *final(self) == (TuiState { scroll_len: final(self).scroll_len, ..*old(self) }),
    {
        self.scroll_len = self.active_len_exec();
    }

    /// Moves the grouping cursor one step back, clamped, and resets the row
    /// selection and the scroll extent to the newly active view.
    pub fn group_prev(&mut self)
        requires
            old(self).wf(),
        ensures
            final(self).wf(),
            final(self).group == old(self).group.spec_prev(),
            final(self).table_index == 0,
            final(self).scroll_len == final(self).active_len(),
            *final(self) == (TuiState {
                group: final(self).group,
                group_index: final(self).group_index,
                table_index: 0,
                scroll_len: final(self).scroll_len,
                ..*old(self)
            }),
    {
        self.group.prev();
        self.group_index = self.group.index();
        self.table_index = 0;
        self.scroll_reset();
    }

    /// Moves the grouping cursor one step forward, clamped, and resets the
    /// row selection and the scroll extent to the newly active view.
    pub fn group_next(&mut self)
        requires
            old(self).wf(),
        ensures
            final(self).wf(),
            final(self).group == old(self).group.spec_next(),
            final(self).table_index == 0,
            final(self).scroll_len == final(self).active_len(),
            *final(self) == (TuiState {
                group: final(self).group,
                group_index: final(self).group_index,
                table_index: 0,
                scroll_len: final(self).scroll_len,
                ..*old(self)
            }),
    {
        self.group.next();
        self.group_index = self.group.index();
        self.table_index = 0;
        self.scroll_reset();
    }

    /// Refreshes the active view from the store: rebuilds exactly that view,
    /// selects the first row again and recomputes the scroll extent.
    pub fn update_data(&mut self, store: &Store)
        requires
            old(self).wf(),
            store.wf(),
            store.total <= u32::MAX,
            store@.songs.len() <= u32::MAX,
        ensures
            final(self).wf(),
            final(self).table_index == 0,
            final(self).scroll_len == final(self).active_len(),
            final(self).group == old(self).group,
            final(self).sort_priority == old(self).sort_priority,
            final(self).selected_tab == old(self).selected_tab,
            final(self).weighted == old(self).weighted,
            final(self).exit == old(self).exit,
            match old(self).group {
                Group::Ungrouped => {
                    &&& abs_none_rows(final(self).data_vec_none@).to_multiset() == spec_ungrouped(
                        store@.songs,
                        store@.plays,
                    ).to_multiset()
                    &&& final(self).data_vec_date == old(self).data_vec_date
                    &&& final(self).data_vec_artist == old(self).data_vec_artist
                    &&& final(self).data_vec_album == old(self).data_vec_album
                },
                Group::Date => {
                    &&& abs_date_rows(final(self).data_vec_date@).to_multiset() == spec_by_date(
                        store@.plays,
                    ).to_multiset()
                    &&& final(self).data_vec_none == old(self).data_vec_none
                    &&& final(self).data_vec_artist == old(self).data_vec_artist
                    &&& final(self).data_vec_album == old(self).data_vec_album
                },
                Group::Artist => {
                    &&& abs_artist_rows(final(self).data_vec_artist@).to_multiset()
                        == spec_by_artist(store@.songs, store@.plays).to_multiset()
                    &&& final(self).data_vec_none == old(self).data_vec_none
                    &&& final(self).data_vec_date == old(self).data_vec_date
                    &&& final(self).data_vec_album == old(self).data_vec_album
                },
                Group::Album => {
                    &&& abs_album_rows(final(self).data_vec_album@).to_multiset() == spec_by_album(
                        store@.songs,
                        store@.plays,
                    ).to_multiset()
                    &&& final(self).data_vec_none == old(self).data_vec_none
                    &&& final(self).data_vec_date == old(self).data_vec_date
                    &&& final(self).data_vec_artist == old(self).data_vec_artist
                },
            },
    {
        self.table_index = 0;
        match self.group {
            Group::Ungrouped => {
                self.data_vec_none = get_data_vec_none(store);
            },
            Group::Date => {
                self.data_vec_date = get_data_vec_date(store);
            },
            Group::Artist => {
                self.data_vec_artist = get_data_vec_artist(store);
            },
            Group::Album => {
                self.data_vec_album = get_data_vec_album(store);
            },
        }
        self.scroll_reset();
    }

    /// Toggles the weighted display and re-ranks the by-artist and by-album
    /// views under the order now shown: by exact weight when weighted, by
    /// total plays otherwise.
    pub fn toggle_weighted(&mut self)
        ensures
            final(self).weighted == !old(self).weighted,
            final(self).data_vec_artist@ == stable_sort_by(
                le_fn::<bool, SongDataArtist>(!old(self).weighted),
                old(self).data_vec_artist@,
            ),
            final(self).data_vec_album@ == stable_sort_by(
                le_fn::<bool, SongDataAlbum>(!old(self).weighted),
                old(self).data_vec_album@,
            ),
            *final(self) == (TuiState {
                weighted: !old(self).weighted,
                data_vec_artist: final(self).data_vec_artist,
                data_vec_album: final(self).data_vec_album,
                ..*old(self)
            }),
    {
        self.weighted = !self.weighted;
        let w = self.weighted;
        sort_rows(&mut self.data_vec_artist, &w);
        sort_rows(&mut self.data_vec_album, &w);
    }

    /// Moves the pane focus back.
    pub fn selected_tab_prev(&mut self)
        ensures
            final(self).selected_tab == old(self).selected_tab.spec_prev(),
            *final(self) == (TuiState { selected_tab: final(self).selected_tab, ..*old(self) }),
    {
        self.selected_tab.prev();
    }

    /// Moves the pane focus forward.
    pub fn selected_tab_next(&mut self)
        ensures
            final(self).selected_tab == old(self).selected_tab.spec_next(),
            *final(self) == (TuiState { selected_tab: final(self).selected_tab, ..*old(self) }),
    {
        self.selected_tab.next();
    }

    /// Asks the viewer loop to end.
    pub fn exit(&mut self)
        ensures
            final(self).exit,
            *final(self) == (TuiState { exit: true, ..*old(self) }),
    {
        self.exit = true;
    }
}

} // verus!

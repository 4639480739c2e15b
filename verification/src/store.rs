//! The persisted data model: a song catalog and a per-day play log, together
//! with the commit writer that records exactly one play per committed listen
//! session.

use vstd::prelude::*;
use crate::song::{SongData, SongKey};
use crate::date::Date;

verus! {

/// One catalog row: a generated id and the identity it names.
#[derive(Debug)]
pub struct Song {
    pub id: u64,
    pub data: SongData,
}

/// One play-log row: the number of plays recorded for one song on one date.
#[derive(Clone, Copy, Debug)]
pub struct PlayRecord {
    pub song_id: u64,
    pub date: Date,
    pub plays: u64,
}

/// The whole store: catalog, play log, the next id to hand out, and the
/// total of all play counters (kept so that additions can be bounded).
#[derive(Debug)]
pub struct Store {
    pub songs: Vec<Song>,
    pub plays: Vec<PlayRecord>,
    pub next_id: u64,
    pub total: u64,
}

/// The mathematical value of a catalog row.
#[verifier::ext_equal]
pub struct SongEntry {
    pub id: nat,
    pub key: SongKey,
}

/// The mathematical value of a play-log row.
#[verifier::ext_equal]
pub struct PlayEntry {
    pub song_id: nat,
    pub date: Date,
    pub plays: nat,
}

/// The mathematical value of the store.
#[verifier::ext_equal]
pub struct StoreModel {
    pub songs: Seq<SongEntry>,
    pub plays: Seq<PlayEntry>,
    pub next_id: nat,
}

impl View for Song {
    type V = SongEntry;

    open spec fn view(&self) -> SongEntry {
        SongEntry { id: self.id as nat, key: self.data@ }
    }
}

impl View for PlayRecord {
    type V = PlayEntry;

    open spec fn view(&self) -> PlayEntry {
        PlayEntry { song_id: self.song_id as nat, date: self.date, plays: self.plays as nat }
    }
}

impl View for Store {
    type V = StoreModel;

    open spec fn view(&self) -> StoreModel {
        StoreModel {
            songs: self.songs@.map_values(|s: Song| s@),
            plays: self.plays@.map_values(|p: PlayRecord| p@),
            next_id: self.next_id as nat,
        }
    }
}

/// The index of the first catalog row with the given key, if any.
pub open spec fn find_song_idx(songs: Seq<SongEntry>, key: SongKey) -> Option<int>
    decreases songs.len(),
{
    if songs.len() == 0 {
        None
    } else {
        match find_song_idx(songs.drop_last(), key) {
            Some(i) => Some(i),
            None => if songs.last().key == key {
                Some(songs.len() - 1)
            } else {
                None
            },
        }
    }
}

/// The index of the first play-log row for the given song and date, if any.
pub open spec fn find_play_idx(plays: Seq<PlayEntry>, song_id: nat, date: Date) -> Option<int>
    decreases plays.len(),
{
    if plays.len() == 0 {
        None
    } else {
        match find_play_idx(plays.drop_last(), song_id, date) {
            Some(i) => Some(i),
            None => if plays.last().song_id == song_id && plays.last().date == date {
                Some(plays.len() - 1)
            } else {
                None
            },
        }
    }
}

/// The sum of all play counters in the log.
pub open spec fn total_plays(plays: Seq<PlayEntry>) -> nat
    decreases plays.len(),
{
    if plays.len() == 0 {
        0
    } else {
        total_plays(plays.drop_last()) + plays.last().plays
    }
}

impl StoreModel {
    /// The store's invariant: ids unique and below `next_id`, identities
    /// unique and valid, at most one play row per `(song, date)`, every play
    /// row at least one play for a cataloged song on a well-formed date.
    pub open spec fn wf(self) -> bool {
        &&& forall|i: int, j: int|
            0 <= i < j < self.songs.len() ==> self.songs[i].id != self.songs[j].id
        &&& forall|i: int, j: int|
            0 <= i < j < self.songs.len() ==> self.songs[i].key != self.songs[j].key
        &&& forall|i: int| 0 <= i < self.songs.len() ==> self.songs[i].id < self.next_id
        &&& forall|i: int| 0 <= i < self.songs.len() ==> (#[trigger] self.songs[i]).key.valid()
        &&& forall|i: int, j: int|
            0 <= i < j < self.plays.len() ==> !(self.plays[i].song_id == self.plays[j].song_id
                && self.plays[i].date == self.plays[j].date)
        &&& forall|i: int| 0 <= i < self.plays.len() ==> (#[trigger] self.plays[i]).plays >= 1
        &&& forall|i: int| 0 <= i < self.plays.len() ==> (#[trigger] self.plays[i]).date.wf()
        &&& forall|i: int|
            0 <= i < self.plays.len() ==> exists|k: int|
                0 <= k < self.songs.len() && (#[trigger] self.songs[k]).id == (
                #[trigger] self.plays[i]).song_id
    }
}

/// Whether some catalog row carries the id.
pub open spec fn find_song_by_id_exists(songs: Seq<SongEntry>, id: nat) -> bool {
    exists|j: int| 0 <= j < songs.len() && (#[trigger] songs[j]).id == id
}

/// The id under which a commit of `key` is recorded: the id of the existing
/// catalog row, or the next fresh id.
pub open spec fn spec_commit_id(m: StoreModel, key: SongKey) -> nat {
    match find_song_idx(m.songs, key) {
        Some(i) => m.songs[i].id,
        None => m.next_id,
    }
}

/// The store after one commit of `key` on `date`: the catalog gains a row
/// only if the key is new, and the play counter for `(song, date)` rises by
/// exactly one, a new row standing in for a counter at zero.
pub open spec fn spec_commit(m: StoreModel, key: SongKey, date: Date) -> StoreModel {
    let id = spec_commit_id(m, key);
    let songs2 = match find_song_idx(m.songs, key) {
        Some(_) => m.songs,
        None => m.songs.push(SongEntry { id: m.next_id, key }),
    };
    let next2 = match find_song_idx(m.songs, key) {
        Some(_) => m.next_id,
        None => m.next_id + 1,
    };
    let plays2 = match find_play_idx(m.plays, id, date) {
        Some(j) => m.plays.update(
            j,
            PlayEntry { song_id: m.plays[j].song_id, date: m.plays[j].date, plays: m.plays[j].plays + 1 },
        ),
        None => m.plays.push(PlayEntry { song_id: id, date, plays: 1 }),
    };
    StoreModel { songs: songs2, plays: plays2, next_id: next2 }
}

/// What [`find_song_idx`] returns: the first index whose key matches, or
/// nothing when no key matches.
pub proof fn lemma_find_song_props(songs: Seq<SongEntry>, key: SongKey)
    ensures
        match find_song_idx(songs, key) {
            Some(i) => 0 <= i < songs.len() && songs[i].key == key && forall|j: int|
                0 <= j < i ==> songs[j].key != key,
            None => forall|j: int| 0 <= j < songs.len() ==> songs[j].key != key,
        },
    decreases songs.len(),
{
    if songs.len() > 0 {
        let pre = songs.drop_last();
        lemma_find_song_props(pre, key);
        assert(forall|j: int| 0 <= j < pre.len() ==> pre[j] == songs[j]);
        match find_song_idx(songs, key) {
            Some(i) => {
                assert(songs[i].key == key);
            },
            None => {
                assert(forall|j: int| 0 <= j < songs.len() - 1 ==> songs[j].key != key);
                assert(songs[songs.len() - 1].key != key);
            },
        }
    }
}

/// If the first match for `key` stands at `i`, the search finds it there.
pub proof fn lemma_find_song_first(songs: Seq<SongEntry>, key: SongKey, i: int)
    requires
        0 <= i < songs.len(),
        songs[i].key == key,
        forall|j: int| 0 <= j < i ==> songs[j].key != key,
    ensures
        find_song_idx(songs, key) == Some(i),
    decreases songs.len(),
{
    let pre = songs.drop_last();
    assert(forall|j: int| 0 <= j < pre.len() ==> pre[j] == songs[j]);
    if i < songs.len() - 1 {
        lemma_find_song_first(pre, key, i);
    } else {
        lemma_find_song_none(pre, key);
    }
}

/// If no key matches, the search finds nothing.
pub proof fn lemma_find_song_none(songs: Seq<SongEntry>, key: SongKey)
    requires
        forall|j: int| 0 <= j < songs.len() ==> songs[j].key != key,
    ensures
        find_song_idx(songs, key) is None,
    decreases songs.len(),
{
    if songs.len() > 0 {
        let pre = songs.drop_last();
        assert(forall|j: int| 0 <= j < pre.len() ==> pre[j] == songs[j]);
        lemma_find_song_none(pre, key);
        assert(songs[songs.len() - 1].key != key);
    }
}

/// What [`find_play_idx`] returns: the first index matching song and date,
/// or nothing when none matches.
pub proof fn lemma_find_play_props(plays: Seq<PlayEntry>, song_id: nat, date: Date)
    ensures
        match find_play_idx(plays, song_id, date) {
            Some(i) => 0 <= i < plays.len() && plays[i].song_id == song_id && plays[i].date == date
                && forall|j: int|
                0 <= j < i ==> !(plays[j].song_id == song_id && plays[j].date == date),
            None => forall|j: int|
                0 <= j < plays.len() ==> !(plays[j].song_id == song_id && plays[j].date == date),
        },
    decreases plays.len(),
{
    if plays.len() > 0 {
        let pre = plays.drop_last();
        lemma_find_play_props(pre, song_id, date);
        assert(forall|j: int| 0 <= j < pre.len() ==> pre[j] == plays[j]);
        match find_play_idx(plays, song_id, date) {
            Some(i) => {},
            None => {
                assert(!(plays[plays.len() - 1].song_id == song_id && plays[plays.len() - 1].date
                    == date));
            },
        }
    }
}

/// If the first play row for `(song_id, date)` stands at `i`, the search
/// finds it there.
pub proof fn lemma_find_play_first(plays: Seq<PlayEntry>, song_id: nat, date: Date, i: int)
    requires
        0 <= i < plays.len(),
        plays[i].song_id == song_id,
        plays[i].date == date,
        forall|j: int| 0 <= j < i ==> !(plays[j].song_id == song_id && plays[j].date == date),
    ensures
        find_play_idx(plays, song_id, date) == Some(i),
    decreases plays.len(),
{
    let pre = plays.drop_last();
    assert(forall|j: int| 0 <= j < pre.len() ==> pre[j] == plays[j]);
    if i < plays.len() - 1 {
        lemma_find_play_first(pre, song_id, date, i);
    } else {
        lemma_find_play_none(pre, song_id, date);
    }
}

/// If no play row matches, the search finds nothing.
pub proof fn lemma_find_play_none(plays: Seq<PlayEntry>, song_id: nat, date: Date)
    requires
        forall|j: int| 0 <= j < plays.len() ==> !(plays[j].song_id == song_id && plays[j].date == date),
    ensures
        find_play_idx(plays, song_id, date) is None,
    decreases plays.len(),
{
    if plays.len() > 0 {
        let pre = plays.drop_last();
        assert(forall|j: int| 0 <= j < pre.len() ==> pre[j] == plays[j]);
        lemma_find_play_none(pre, song_id, date);
        assert(!(plays[plays.len() - 1].song_id == song_id && plays[plays.len() - 1].date == date));
    }
}

/// Each play counter is at most the total of all counters.
pub proof fn lemma_play_le_total(plays: Seq<PlayEntry>, j: int)
    requires
        0 <= j < plays.len(),
    ensures
        plays[j].plays <= total_plays(plays),
    decreases plays.len(),
{
    if j < plays.len() - 1 {
        lemma_play_le_total(plays.drop_last(), j);
    }
}

/// The total after an update that raises one counter by one.
proof fn lemma_total_update_plus_one(plays: Seq<PlayEntry>, j: int)
    requires
        0 <= j < plays.len(),
    ensures
        total_plays(
            plays.update(j, PlayEntry { song_id: plays[j].song_id, date: plays[j].date, plays: plays[j].plays + 1 }),
        ) == total_plays(plays) + 1,
    decreases plays.len(),
{
    let updated = plays.update(
        j,
        PlayEntry { song_id: plays[j].song_id, date: plays[j].date, plays: plays[j].plays + 1 },
    );
    if j == plays.len() - 1 {
        assert(updated.drop_last() =~= plays.drop_last());
    } else {
        lemma_total_update_plus_one(plays.drop_last(), j);
        assert(updated.drop_last() =~= plays.drop_last().update(
            j,
            PlayEntry { song_id: plays[j].song_id, date: plays[j].date, plays: plays[j].plays + 1 },
        ));
        assert(updated.last() == plays.last());
    }
}

/// The total after appending a row.
proof fn lemma_total_push(plays: Seq<PlayEntry>, p: PlayEntry)
    ensures
        total_plays(plays.push(p)) == total_plays(plays) + p.plays,
{
    assert(plays.push(p).drop_last() =~= plays);
}

/// A commit preserves the store invariant.
pub proof fn lemma_commit_preserves_wf(m: StoreModel, key: SongKey, date: Date)
    requires
        m.wf(),
        key.valid(),
        date.wf(),
    ensures
        spec_commit(m, key, date).wf(),
        total_plays(spec_commit(m, key, date).plays) == total_plays(m.plays) + 1,
{
    let m2 = spec_commit(m, key, date);
    let id = spec_commit_id(m, key);
    lemma_find_song_props(m.songs, key);
    lemma_find_play_props(m.plays, id, date);
    match find_song_idx(m.songs, key) {
        Some(i) => {
            assert(forall|j: int| 0 <= j < m2.songs.len() ==> m2.songs[j] == m.songs[j]);
        },
        None => {
            // the fresh id is not referenced by any play row
            assert forall|i: int|
                0 <= i < m.plays.len() implies (#[trigger] m.plays[i]).song_id != m.next_id by {
                let k = choose|k: int|
                    0 <= k < m.songs.len() && (#[trigger] m.songs[k]).id == m.plays[i].song_id;
                assert(m.songs[k].id < m.next_id);
            }
            assert(forall|j: int| 0 <= j < m.songs.len() ==> m2.songs[j] == m.songs[j]);
            assert(m2.songs.last() == SongEntry { id: m.next_id, key });
        },
    }
    match find_play_idx(m.plays, id, date) {
        Some(j) => {
            lemma_total_update_plus_one(m.plays, j);
            assert(forall|k: int|
                0 <= k < m.plays.len() && k != j ==> m2.plays[k] == m.plays[k]);
            assert(m2.plays[j].song_id == m.plays[j].song_id && m2.plays[j].date
                == m.plays[j].date);
            // the updated row still refers to a cataloged song
            assert forall|i: int|
                0 <= i < m2.plays.len() implies exists|k: int|
                0 <= k < m2.songs.len() && (#[trigger] m2.songs[k]).id == (
            #[trigger] m2.plays[i]).song_id by {
                let k = choose|k: int|
                    0 <= k < m.songs.len() && (#[trigger] m.songs[k]).id == m.plays[i].song_id;
                assert(0 <= k < m2.songs.len() && m2.songs[k].id == m2.plays[i].song_id);
            }
        },
        None => {
            lemma_total_push(m.plays, PlayEntry { song_id: id, date, plays: 1 });
            assert(forall|k: int| 0 <= k < m.plays.len() ==> m2.plays[k] == m.plays[k]);
            assert(m2.plays.last() == PlayEntry { song_id: id, date, plays: 1 });
            // the id under which the new row is recorded is cataloged
            match find_song_idx(m.songs, key) {
                Some(i) => {
                    assert(0 <= i < m2.songs.len() && m2.songs[i].id == id);
                },
                None => {
                    assert(m2.songs[m.songs.len() as int].id == id);
                },
            }
            assert forall|i: int|
                0 <= i < m2.plays.len() implies exists|k: int|
                0 <= k < m2.songs.len() && (#[trigger] m2.songs[k]).id == (
            #[trigger] m2.plays[i]).song_id by {
                if i < m.plays.len() {
                    let k = choose|k: int|
                        0 <= k < m.songs.len() && (#[trigger] m.songs[k]).id == m.plays[i].song_id;
                    assert(0 <= k < m2.songs.len() && m2.songs[k].id == m2.plays[i].song_id);
                } else {
                    let k = choose|k: int|
                        0 <= k < m2.songs.len() && (#[trigger] m2.songs[k]).id == id;
                    assert(m2.songs[k].id == m2.plays[i].song_id);
                }
            }
        },
    }
}

/// A store's fresh id is referenced by no play row.
pub proof fn lemma_fresh_id_unreferenced(m: StoreModel)
    requires
        m.wf(),
    ensures
        forall|i: int| 0 <= i < m.plays.len() ==> (#[trigger] m.plays[i]).song_id != m.next_id,
{
    assert forall|i: int|
        0 <= i < m.plays.len() implies (#[trigger] m.plays[i]).song_id != m.next_id by {
        let k = choose|k: int|
            0 <= k < m.songs.len() && (#[trigger] m.songs[k]).id == m.plays[i].song_id;
        assert(m.songs[k].id < m.next_id);
    }
}

/// The catalog is idempotent: once an identity has been committed, committing
/// it again — on any date — adds no catalog row and hands out no new id.
pub proof fn lemma_commit_idempotent_catalog(m: StoreModel, key: SongKey, d1: Date, d2: Date)
    requires
        m.wf(),
        key.valid(),
        d1.wf(),
        d2.wf(),
    ensures
        spec_commit(spec_commit(m, key, d1), key, d2).songs == spec_commit(m, key, d1).songs,
        spec_commit(spec_commit(m, key, d1), key, d2).next_id == spec_commit(m, key, d1).next_id,
{
    let m1 = spec_commit(m, key, d1);
    lemma_find_song_props(m.songs, key);
    match find_song_idx(m.songs, key) {
        Some(i) => {
            lemma_find_song_first(m1.songs, key, i);
        },
        None => {
            assert(m1.songs == m.songs.push(SongEntry { id: m.next_id, key }));
            assert(forall|j: int| 0 <= j < m.songs.len() ==> m1.songs[j] == m.songs[j]);
            assert(m1.songs[m.songs.len() as int].key == key);
            lemma_find_song_first(m1.songs, key, m.songs.len() as int);
        },
    }
}

/// Committing a fresh identity on two distinct dates yields exactly one new
/// catalog row and two play rows, each recording one play.
pub proof fn lemma_commit_two_dates(m: StoreModel, key: SongKey, d1: Date, d2: Date)
    requires
        m.wf(),
        key.valid(),
        d1.wf(),
        d2.wf(),
        d1 != d2,
        find_song_idx(m.songs, key) is None,
    ensures
        ({
            let m2 = spec_commit(spec_commit(m, key, d1), key, d2);
            &&& m2.songs == m.songs.push(SongEntry { id: m.next_id, key })
            &&& m2.plays == m.plays.push(PlayEntry { song_id: m.next_id, date: d1, plays: 1 }).push(
                PlayEntry { song_id: m.next_id, date: d2, plays: 1 },
            )
        }),
{
    let m1 = spec_commit(m, key, d1);
    let m2 = spec_commit(m1, key, d2);
    let id = m.next_id;
    lemma_fresh_id_unreferenced(m);
    lemma_find_play_none(m.plays, id, d1);
    assert(m1.songs == m.songs.push(SongEntry { id, key }));
    assert(m1.plays == m.plays.push(PlayEntry { song_id: id, date: d1, plays: 1 }));
    assert(forall|j: int| 0 <= j < m.songs.len() ==> m1.songs[j] == m.songs[j]);
    lemma_find_song_props(m.songs, key);
    lemma_find_song_first(m1.songs, key, m.songs.len() as int);
    assert(spec_commit_id(m1, key) == id);
    assert(forall|j: int| 0 <= j < m.plays.len() ==> m1.plays[j] == m.plays[j]);
    assert(m1.plays.last().date == d1);
    lemma_find_play_none(m1.plays, id, d2);
}

/// The store after `n` commits of the same identity on the same date.
pub open spec fn spec_commit_n(m: StoreModel, key: SongKey, date: Date, n: nat) -> StoreModel
    decreases n,
{
    if n == 0 {
        m
    } else {
        spec_commit(spec_commit_n(m, key, date, (n - 1) as nat), key, date)
    }
}

/// Play counts are cumulative: committing a fresh identity on one date
/// `n >= 1` times yields a single play row for it, recording `n` plays.
pub proof fn lemma_commit_cumulative(m: StoreModel, key: SongKey, date: Date, n: nat)
    requires
        m.wf(),
        key.valid(),
        date.wf(),
        n >= 1,
        find_song_idx(m.songs, key) is None,
    ensures
        ({
            let mn = spec_commit_n(m, key, date, n);
            &&& mn.songs == m.songs.push(SongEntry { id: m.next_id, key })
            &&& mn.plays == m.plays.push(PlayEntry { song_id: m.next_id, date, plays: n })
            &&& mn.next_id == m.next_id + 1
            &&& mn.wf()
        }),
    decreases n,
{
    let id = m.next_id;
    lemma_commit_preserves_wf(m, key, date);
    if n == 1 {
        lemma_fresh_id_unreferenced(m);
        lemma_find_play_none(m.plays, id, date);
        assert(spec_commit_n(m, key, date, 1) == spec_commit(m, key, date));
        lemma_commit_n_wf(m, key, date, n);
    } else {
        lemma_commit_cumulative(m, key, date, (n - 1) as nat);
        let mp = spec_commit_n(m, key, date, (n - 1) as nat);
        let mn = spec_commit(mp, key, date);
        assert(forall|j: int| 0 <= j < m.songs.len() ==> mp.songs[j] == m.songs[j]);
        lemma_find_song_props(m.songs, key);
        lemma_find_song_first(mp.songs, key, m.songs.len() as int);
        assert(spec_commit_id(mp, key) == id);
        lemma_fresh_id_unreferenced(m);
        assert(forall|j: int| 0 <= j < m.plays.len() ==> mp.plays[j] == m.plays[j]);
        let last = m.plays.len() as int;
        assert(mp.plays[last] == PlayEntry { song_id: id, date, plays: (n - 1) as nat });
        lemma_find_play_first(mp.plays, id, date, last);
        assert(mn.plays == mp.plays.update(
            last,
            PlayEntry { song_id: id, date, plays: n },
        ));
        assert(mn.plays =~= m.plays.push(PlayEntry { song_id: id, date, plays: n }));
        lemma_commit_n_wf(m, key, date, n);
    }
}

/// Repeated commits preserve the store invariant.
pub proof fn lemma_commit_n_wf(m: StoreModel, key: SongKey, date: Date, n: nat)
    requires
        m.wf(),
        key.valid(),
        date.wf(),
    ensures
        spec_commit_n(m, key, date, n).wf(),
    decreases n,
{
    if n > 0 {
        lemma_commit_n_wf(m, key, date, (n - 1) as nat);
        lemma_commit_preserves_wf(spec_commit_n(m, key, date, (n - 1) as nat), key, date);
    }
}

impl Store {
    /// A store whose in-memory value satisfies the invariant and whose
    /// running total matches the play log.
    pub open spec fn wf(&self) -> bool {
        &&& self@.wf()
        &&& self.total as nat == total_plays(self@.plays)
    }

    /// An empty store.
    pub fn new() -> (s: Store)
        ensures
            s.wf(),
            s@.songs.len() == 0,
            s@.plays.len() == 0,
            s@.next_id == 1,
            s.total == 0,
    {
        let s = Store { songs: Vec::new(), plays: Vec::new(), next_id: 1, total: 0 };
        proof {
            assert(s@.songs =~= Seq::<SongEntry>::empty());
            assert(s@.plays =~= Seq::<PlayEntry>::empty());
        }
        s
    }

    /// The index of the catalog row for `data`, if the identity is cataloged.
    fn find_song(&self, data: &SongData) -> (r: Option<usize>)
        ensures
            match r {
                Some(i) => find_song_idx(self@.songs, data@) == Some(i as int),
                None => find_song_idx(self@.songs, data@) is None,
            },
    {
        let mut i: usize = 0;
        while i < self.songs.len()
            invariant
                i <= self.songs.len(),
                forall|j: int| 0 <= j < i ==> self@.songs[j].key != data@,
                self@.songs.len() == self.songs.len(),
            decreases self.songs.len() - i,
        {
            if self.songs[i].data == *data {
                proof {
                    lemma_find_song_first(self@.songs, data@, i as int);
                }
                return Some(i);
            }
            i = i + 1;
        }
        proof {
            lemma_find_song_none(self@.songs, data@);
        }
        None
    }

    /// The index of the play row for `(song_id, date)`, if one exists.
    fn find_play(&self, song_id: u64, date: &Date) -> (r: Option<usize>)
        ensures
            match r {
                Some(j) => find_play_idx(self@.plays, song_id as nat, *date) == Some(j as int),
                None => find_play_idx(self@.plays, song_id as nat, *date) is None,
            },
    {
        let mut j: usize = 0;
        while j < self.plays.len()
            invariant
                j <= self.plays.len(),
                forall|k: int|
                    0 <= k < j ==> !(self@.plays[k].song_id == song_id as nat
                        && self@.plays[k].date == *date),
                self@.plays.len() == self.plays.len(),
            decreases self.plays.len() - j,
        {
            let row = &self.plays[j];
            if row.song_id == song_id && row.date == *date {
                proof {
                    lemma_find_play_first(self@.plays, song_id as nat, *date, j as int);
                }
                return Some(j);
            }
            j = j + 1;
        }
        proof {
            lemma_find_play_none(self@.plays, song_id as nat, *date);
        }
        None
    }

    /// Records one play of `data` on `date`: ensures a catalog row exists for
    /// the identity (never creating a duplicate) and raises the play counter
    /// for `(song, date)` by exactly one, starting a missing counter at one.
    pub fn commit(&mut self, data: &SongData, date: Date)
        requires
            old(self).wf(),
            data.valid(),
            date.wf(),
            old(self).total < u64::MAX,
            old(self).next_id < u64::MAX,
        ensures
            final(self).wf(),
            final(self)@ == spec_commit(old(self)@, data@, date),
            final(self).total == old(self).total + 1,
    {
        let ghost m = self@;
        proof {
            lemma_commit_preserves_wf(m, data@, date);
            lemma_find_song_props(m.songs, data@);
        }
        let id: u64 = match self.find_song(data) {
            Some(i) => self.songs[i].id,
            None => {
                let id = self.next_id;
                self.songs.push(Song { id, data: data.clone() });
                self.next_id = self.next_id + 1;
                proof {
                    assert(self@.songs =~= m.songs.push(SongEntry { id: id as nat, key: data@ }));
                    assert(self@.plays =~= m.plays);
                }
                id
            },
        };
        proof {
            assert(id as nat == spec_commit_id(m, data@));
        }
        match self.find_play(id, &date) {
            Some(j) => {
                proof {
                    lemma_find_play_props(m.plays, id as nat, date);
                    lemma_play_le_total(m.plays, j as int);
                }
                let row = self.plays[j];
                self.plays.set(j, PlayRecord { song_id: row.song_id, date: row.date, plays: row.plays + 1 });
                proof {
                    assert(self@.plays =~= m.plays.update(
                        j as int,
                        PlayEntry {
                            song_id: m.plays[j as int].song_id,
                            date: m.plays[j as int].date,
                            plays: m.plays[j as int].plays + 1,
                        },
                    ));
                }
            },
            None => {
                self.plays.push(PlayRecord { song_id: id, date, plays: 1 });
                proof {
                    assert(self@.plays =~= m.plays.push(
                        PlayEntry { song_id: id as nat, date, plays: 1 },
                    ));
                }
            },
        }
        self.total = self.total + 1;
        proof {
            assert(self@ =~~= spec_commit(m, data@, date));
        }
    }

    /// Restores one catalog row read back from persistent storage. The row is
    /// accepted exactly when its identity is valid and both the id and the
    /// identity are new to the catalog; the id counter moves past the id.
    pub fn add_catalog_row(&mut self, id: u64, data: SongData) -> (ok: bool)
        requires
            old(self).wf(),
            id < u64::MAX,
        ensures
            final(self).wf(),
            ok <==> (data.valid() && find_song_idx(old(self)@.songs, data@) is None && (forall|
                k: int,
            |
                0 <= k < old(self)@.songs.len() ==> (#[trigger] old(self)@.songs[k]).id
                    != id as nat)),
            ok ==> final(self)@.songs == old(self)@.songs.push(
                SongEntry { id: id as nat, key: data@ },
            ) && final(self)@.plays == old(self)@.plays && final(self).total == old(self).total
                && final(self)@.next_id == if id as nat + 1 > old(self)@.next_id {
                id as nat + 1
            } else {
                old(self)@.next_id
            },
            !ok ==> *final(self) == *old(self),
    {
        let ghost m = self@;
        if !data.is_valid() {
            return false;
        }
        if self.find_song(&data).is_some() {
            proof {
                lemma_find_song_props(m.songs, data@);
            }
            return false;
        }
        let mut k: usize = 0;
        while k < self.songs.len()
            invariant
                k <= self.songs.len(),
                m == self@,
                m == old(self)@,
                *self == *old(self),
                self.wf(),
                m.songs.len() == self.songs.len(),
                forall|j: int| 0 <= j < k ==> (#[trigger] m.songs[j]).id != id as nat,
            decreases self.songs.len() - k,
        {
            if self.songs[k].id == id {
                proof {
                    assert(old(self)@.songs[k as int].id == id as nat);
                }
                return false;
            }
            k = k + 1;
        }
        proof {
            lemma_find_song_props(m.songs, data@);
        }
        let ghost key = data@;
        self.songs.push(Song { id, data });
        if id + 1 > self.next_id {
            self.next_id = id + 1;
        }
        proof {
            assert(self@.songs =~= m.songs.push(SongEntry { id: id as nat, key }));
            assert(self@.plays =~= m.plays);
            assert(forall|j: int| 0 <= j < m.songs.len() ==> self@.songs[j] == m.songs[j]);
            assert forall|i: int|
                0 <= i < self@.plays.len() implies exists|k: int|
                0 <= k < self@.songs.len() && (#[trigger] self@.songs[k]).id == (
            #[trigger] self@.plays[i]).song_id by {
                let k = choose|k: int|
                    0 <= k < m.songs.len() && (#[trigger] m.songs[k]).id == m.plays[i].song_id;
                assert(self@.songs[k].id == self@.plays[i].song_id);
            }
        }
        true
    }

    /// Restores one play row read back from persistent storage. The row is
    /// accepted exactly when it records at least one play of a cataloged song
    /// on a well-formed date not yet in the log for that song, and the total
    /// still fits the counter.
    pub fn add_play_row(&mut self, song_id: u64, date: Date, plays: u64) -> (ok: bool)
        requires
            old(self).wf(),
        ensures
            final(self).wf(),
            ok <==> (plays >= 1 && date.wf() && find_song_by_id_exists(old(self)@.songs, song_id as nat)
                && find_play_idx(old(self)@.plays, song_id as nat, date) is None && old(
                self,
            ).total + plays <= u64::MAX),
            ok ==> final(self)@.plays == old(self)@.plays.push(
                PlayEntry { song_id: song_id as nat, date, plays: plays as nat },
            ) && final(self)@.songs == old(self)@.songs && final(self)@.next_id == old(
                self,
            )@.next_id && final(self).total == old(self).total + plays,
            !ok ==> *final(self) == *old(self),
    {
        let ghost m = self@;
        if plays < 1 {
            return false;
        }
        let date_ok = 1 <= date.year && date.year <= 9999 && 1 <= date.month && date.month <= 12
            && 1 <= date.day && date.day <= 31;
        if !date_ok {
            return false;
        }
        if plays > u64::MAX - self.total {
            return false;
        }
        let mut k: usize = 0;
        let mut found = false;
        while k < self.songs.len()
            invariant
                k <= self.songs.len(),
                m == self@,
                m == old(self)@,
                *self == *old(self),
                self.wf(),
                m.songs.len() == self.songs.len(),
                found == exists|j: int|
                    0 <= j < k && (#[trigger] m.songs[j]).id == song_id as nat,
            decreases self.songs.len() - k,
        {
            if self.songs[k].id == song_id {
                found = true;
                proof {
                    assert(0 <= k < k + 1 && m.songs[k as int].id == song_id as nat);
                }
            }
            k = k + 1;
        }
        proof {
            assert(found == find_song_by_id_exists(m.songs, song_id as nat));
        }
        if !found {
            return false;
        }
        if self.find_play(song_id, &date).is_some() {
            proof {
                lemma_find_play_props(m.plays, song_id as nat, date);
            }
            return false;
        }
        proof {
            lemma_find_play_props(m.plays, song_id as nat, date);
        }
        self.plays.push(PlayRecord { song_id, date, plays });
        self.total = self.total + plays;
        proof {
            assert(self@.plays =~= m.plays.push(
                PlayEntry { song_id: song_id as nat, date, plays: plays as nat },
            ));
            assert(total_plays(self@.plays) == total_plays(m.plays) + plays) by {
                assert(self@.plays.drop_last() =~= m.plays);
            }
        }
        true
    }

    /// The play counter recorded for `data` on `date`, if any.
    pub fn lookup_plays(&self, data: &SongData, date: &Date) -> (r: Option<u64>)
        ensures
            match find_song_idx(self@.songs, data@) {
                Some(i) => match find_play_idx(self@.plays, self@.songs[i].id, *date) {
                    Some(j) => r matches Some(v) && v as nat == self@.plays[j].plays,
                    None => r is None,
                },
                None => r is None,
            },
    {
        match self.find_song(data) {
            Some(i) => {
                proof {
                    lemma_find_song_props(self@.songs, data@);
                }
                let id = self.songs[i].id;
                match self.find_play(id, date) {
                    Some(j) => {
                        proof {
                            lemma_find_play_props(self@.plays, id as nat, *date);
                        }
                        Some(self.plays[j].plays)
                    },
                    None => None,
                }
            },
            None => None,
        }
    }

    /// The number of catalog rows.
    pub fn song_count(&self) -> (n: usize)
        ensures
            n == self@.songs.len(),
    {
        self.songs.len()
    }

    /// The number of play-log rows.
    pub fn play_row_count(&self) -> (n: usize)
        ensures
            n == self@.plays.len(),
    {
        self.plays.len()
    }
}

} // verus!

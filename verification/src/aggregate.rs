//! The aggregation engine: builds the four ranked views — ungrouped,
//! by date, by artist, by album — by scanning the play log joined to the
//! catalog.

use vstd::prelude::*;
use vstd::relations::sorted_by;
use crate::date::Date;
use crate::decimal::spec_decimal;
use crate::order::{le_fn, sort_rows, RowOrd, Sort, SortDirection};
use crate::song::SongKey;
use crate::sorting::{
    lemma_map_multiset, lemma_multiset_pointwise, lemma_stable_sort_by_ensures,
};
use crate::store::{PlayEntry, SongEntry, Store, total_plays};
use crate::views::{SongDataAlbum, SongDataArtist, SongDataDate, SongDataNone};

verus! {

/// The total plays recorded for one song over all dates.
pub open spec fn song_total(plays: Seq<PlayEntry>, id: nat) -> nat
    decreases plays.len(),
{
    if plays.len() == 0 {
        0
    } else {
        song_total(plays.drop_last(), id) + if plays.last().song_id == id {
            plays.last().plays
        } else {
            0
        }
    }
}

/// The total plays recorded on one date over all songs.
pub open spec fn date_total(plays: Seq<PlayEntry>, d: Date) -> nat
    decreases plays.len(),
{
    if plays.len() == 0 {
        0
    } else {
        date_total(plays.drop_last(), d) + if plays.last().date == d {
            plays.last().plays
        } else {
            0
        }
    }
}

/// A per-song total never exceeds the total of the whole log.
pub proof fn lemma_song_total_le(plays: Seq<PlayEntry>, id: nat)
    ensures
        song_total(plays, id) <= total_plays(plays),
    decreases plays.len(),
{
    if plays.len() > 0 {
        lemma_song_total_le(plays.drop_last(), id);
    }
}

/// A per-date total never exceeds the total of the whole log.
pub proof fn lemma_date_total_le(plays: Seq<PlayEntry>, d: Date)
    ensures
        date_total(plays, d) <= total_plays(plays),
    decreases plays.len(),
{
    if plays.len() > 0 {
        lemma_date_total_le(plays.drop_last(), d);
    }
}

/// A prefix of the log has at most the whole log's total.
pub proof fn lemma_total_plays_take(plays: Seq<PlayEntry>, j: int)
    requires
        0 <= j <= plays.len(),
    ensures
        total_plays(plays.take(j)) <= total_plays(plays),
    decreases plays.len(),
{
    if j == plays.len() {
        assert(plays.take(j) =~= plays);
    } else {
        assert(plays.drop_last().take(j) =~= plays.take(j));
        lemma_total_plays_take(plays.drop_last(), j);
    }
}

/// The ungrouped view's contents: one entry per cataloged song with at least
/// one recorded play, in catalog order, carrying the song's total plays.
pub open spec fn spec_ungrouped(songs: Seq<SongEntry>, plays: Seq<PlayEntry>) -> Seq<
    (SongKey, nat),
>
    decreases songs.len(),
{
    if songs.len() == 0 {
        Seq::empty()
    } else {
        let pre = spec_ungrouped(songs.drop_last(), plays);
        let t = song_total(plays, songs.last().id);
        if t >= 1 {
            pre.push((songs.last().key, t))
        } else {
            pre
        }
    }
}

/// The distinct dates of the play log, in order of first appearance.
pub open spec fn distinct_dates(plays: Seq<PlayEntry>) -> Seq<Date>
    decreases plays.len(),
{
    if plays.len() == 0 {
        Seq::empty()
    } else {
        let pre = distinct_dates(plays.drop_last());
        if pre.contains(plays.last().date) {
            pre
        } else {
            pre.push(plays.last().date)
        }
    }
}

/// The by-date view's contents: one entry per distinct date, carrying the
/// date's total plays.
pub open spec fn spec_by_date(plays: Seq<PlayEntry>) -> Seq<(Date, nat)> {
    date_rows_of(plays, distinct_dates(plays))
}

/// The by-date entries for a given list of dates.
pub open spec fn date_rows_of(plays: Seq<PlayEntry>, ds: Seq<Date>) -> Seq<(Date, nat)> {
    ds.map_values(|d: Date| (d, date_total(plays, d)))
}

/// The index of the catalog row with the given id, if any.
pub open spec fn find_song_by_id(songs: Seq<SongEntry>, id: nat) -> Option<int>
    decreases songs.len(),
{
    if songs.len() == 0 {
        None
    } else {
        match find_song_by_id(songs.drop_last(), id) {
            Some(i) => Some(i),
            None => if songs.last().id == id {
                Some(songs.len() - 1)
            } else {
                None
            },
        }
    }
}

/// What [`find_song_by_id`] returns.
pub proof fn lemma_find_song_by_id_props(songs: Seq<SongEntry>, id: nat)
    ensures
        match find_song_by_id(songs, id) {
            Some(i) => 0 <= i < songs.len() && songs[i].id == id,
            None => forall|j: int| 0 <= j < songs.len() ==> songs[j].id != id,
        },
    decreases songs.len(),
{
    if songs.len() > 0 {
        let pre = songs.drop_last();
        lemma_find_song_by_id_props(pre, id);
        assert(forall|j: int| 0 <= j < pre.len() ==> pre[j] == songs[j]);
        if find_song_by_id(songs, id) is None {
            assert(songs[songs.len() - 1].id != id);
        }
    }
}

/// If the first row with the id stands at `i`, the search finds it there.
pub proof fn lemma_find_song_by_id_first(songs: Seq<SongEntry>, id: nat, i: int)
    requires
        0 <= i < songs.len(),
        songs[i].id == id,
        forall|j: int| 0 <= j < i ==> songs[j].id != id,
    ensures
        find_song_by_id(songs, id) == Some(i),
    decreases songs.len(),
{
    let pre = songs.drop_last();
    assert(forall|j: int| 0 <= j < pre.len() ==> pre[j] == songs[j]);
    if i < songs.len() - 1 {
        lemma_find_song_by_id_first(pre, id, i);
    } else {
        lemma_find_song_by_id_none(pre, id);
    }
}

/// If no row has the id, the search finds nothing.
pub proof fn lemma_find_song_by_id_none(songs: Seq<SongEntry>, id: nat)
    requires
        forall|j: int| 0 <= j < songs.len() ==> songs[j].id != id,
    ensures
        find_song_by_id(songs, id) is None,
    decreases songs.len(),
{
    if songs.len() > 0 {
        let pre = songs.drop_last();
        assert(forall|j: int| 0 <= j < pre.len() ==> pre[j] == songs[j]);
        lemma_find_song_by_id_none(pre, id);
        assert(songs[songs.len() - 1].id != id);
    }
}

/// The artist of the song a play row references, if the id is cataloged.
pub open spec fn row_artist(songs: Seq<SongEntry>, id: nat) -> Option<Seq<char>> {
    match find_song_by_id(songs, id) {
        Some(i) => Some(songs[i].key.artist),
        None => None,
    }
}

/// The album of the song a play row references, if the id is cataloged.
pub open spec fn row_album(songs: Seq<SongEntry>, id: nat) -> Option<Seq<char>> {
    match find_song_by_id(songs, id) {
        Some(i) => Some(songs[i].key.album),
        None => None,
    }
}

/// The total plays recorded under one artist.
pub open spec fn artist_total(songs: Seq<SongEntry>, plays: Seq<PlayEntry>, a: Seq<char>) -> nat
    decreases plays.len(),
{
    if plays.len() == 0 {
        0
    } else {
        artist_total(songs, plays.drop_last(), a) + if row_artist(songs, plays.last().song_id)
            == Some(a) {
            plays.last().plays
        } else {
            0
        }
    }
}

/// The total plays recorded under one album.
pub open spec fn album_total(songs: Seq<SongEntry>, plays: Seq<PlayEntry>, a: Seq<char>) -> nat
    decreases plays.len(),
{
    if plays.len() == 0 {
        0
    } else {
        album_total(songs, plays.drop_last(), a) + if row_album(songs, plays.last().song_id)
            == Some(a) {
            plays.last().plays
        } else {
            0
        }
    }
}

/// The number of distinct cataloged songs under one artist.
pub open spec fn artist_freq(songs: Seq<SongEntry>, a: Seq<char>) -> nat
    decreases songs.len(),
{
    if songs.len() == 0 {
        0
    } else {
        artist_freq(songs.drop_last(), a) + if songs.last().key.artist == a {
            1nat
        } else {
            0nat
        }
    }
}

/// The number of distinct cataloged songs under one album.
pub open spec fn album_freq(songs: Seq<SongEntry>, a: Seq<char>) -> nat
    decreases songs.len(),
{
    if songs.len() == 0 {
        0
    } else {
        album_freq(songs.drop_last(), a) + if songs.last().key.album == a {
            1nat
        } else {
            0nat
        }
    }
}

/// A per-artist total never exceeds the total of the whole log.
pub proof fn lemma_artist_total_le(songs: Seq<SongEntry>, plays: Seq<PlayEntry>, a: Seq<char>)
    ensures
        artist_total(songs, plays, a) <= total_plays(plays),
    decreases plays.len(),
{
    if plays.len() > 0 {
        lemma_artist_total_le(songs, plays.drop_last(), a);
    }
}

/// A per-album total never exceeds the total of the whole log.
pub proof fn lemma_album_total_le(songs: Seq<SongEntry>, plays: Seq<PlayEntry>, a: Seq<char>)
    ensures
        album_total(songs, plays, a) <= total_plays(plays),
    decreases plays.len(),
{
    if plays.len() > 0 {
        lemma_album_total_le(songs, plays.drop_last(), a);
    }
}

/// A frequency never exceeds the catalog's size.
pub proof fn lemma_artist_freq_le(songs: Seq<SongEntry>, a: Seq<char>)
    ensures
        artist_freq(songs, a) <= songs.len(),
    decreases songs.len(),
{
    if songs.len() > 0 {
        lemma_artist_freq_le(songs.drop_last(), a);
    }
}

/// A frequency never exceeds the catalog's size.
pub proof fn lemma_album_freq_le(songs: Seq<SongEntry>, a: Seq<char>)
    ensures
        album_freq(songs, a) <= songs.len(),
    decreases songs.len(),
{
    if songs.len() > 0 {
        lemma_album_freq_le(songs.drop_last(), a);
    }
}

/// Whether some cataloged song carries the artist.
pub open spec fn artist_in_catalog(songs: Seq<SongEntry>, a: Seq<char>) -> bool {
    exists|j: int| 0 <= j < songs.len() && (#[trigger] songs[j]).key.artist == a
}

/// Whether some cataloged song carries the album.
pub open spec fn album_in_catalog(songs: Seq<SongEntry>, a: Seq<char>) -> bool {
    exists|j: int| 0 <= j < songs.len() && (#[trigger] songs[j]).key.album == a
}

/// An artist that some song carries has frequency at least one.
pub proof fn lemma_artist_freq_pos(songs: Seq<SongEntry>, a: Seq<char>)
    requires
        artist_in_catalog(songs, a),
    ensures
        artist_freq(songs, a) >= 1,
    decreases songs.len(),
{
    let j = choose|j: int| 0 <= j < songs.len() && (#[trigger] songs[j]).key.artist == a;
    if j < songs.len() - 1 {
        let pre = songs.drop_last();
        assert(pre[j] == songs[j]);
        lemma_artist_freq_pos(pre, a);
    }
}

/// An album that some song carries has frequency at least one.
pub proof fn lemma_album_freq_pos(songs: Seq<SongEntry>, a: Seq<char>)
    requires
        album_in_catalog(songs, a),
    ensures
        album_freq(songs, a) >= 1,
    decreases songs.len(),
{
    let j = choose|j: int| 0 <= j < songs.len() && (#[trigger] songs[j]).key.album == a;
    if j < songs.len() - 1 {
        let pre = songs.drop_last();
        assert(pre[j] == songs[j]);
        lemma_album_freq_pos(pre, a);
    }
}

/// The distinct artists of the catalog, in order of first appearance.
pub open spec fn distinct_artists(songs: Seq<SongEntry>) -> Seq<Seq<char>>
    decreases songs.len(),
{
    if songs.len() == 0 {
        Seq::empty()
    } else {
        let pre = distinct_artists(songs.drop_last());
        if pre.contains(songs.last().key.artist) {
            pre
        } else {
            pre.push(songs.last().key.artist)
        }
    }
}

/// The distinct albums of the catalog, in order of first appearance.
pub open spec fn distinct_albums(songs: Seq<SongEntry>) -> Seq<Seq<char>>
    decreases songs.len(),
{
    if songs.len() == 0 {
        Seq::empty()
    } else {
        let pre = distinct_albums(songs.drop_last());
        if pre.contains(songs.last().key.album) {
            pre
        } else {
            pre.push(songs.last().key.album)
        }
    }
}

/// Every distinct artist is carried by some song.
pub proof fn lemma_distinct_artists_source(songs: Seq<SongEntry>)
    ensures
        forall|k: int|
            0 <= k < distinct_artists(songs).len() ==> #[trigger] artist_in_catalog(
                songs,
                distinct_artists(songs)[k],
            ),
    decreases songs.len(),
{
    if songs.len() > 0 {
        let pre = songs.drop_last();
        lemma_distinct_artists_source(pre);
        let ds = distinct_artists(songs);
        assert forall|k: int|
            0 <= k < ds.len() implies #[trigger] artist_in_catalog(songs, ds[k]) by {
            if k < distinct_artists(pre).len() {
                assert(artist_in_catalog(pre, distinct_artists(pre)[k]));
                let j = choose|j: int|
                    0 <= j < pre.len() && (#[trigger] pre[j]).key.artist == distinct_artists(
                        pre,
                    )[k];
                assert(songs[j].key.artist == ds[k]);
            } else {
                assert(songs[songs.len() - 1].key.artist == ds[k]);
            }
        }
    }
}

/// Every distinct album is carried by some song.
pub proof fn lemma_distinct_albums_source(songs: Seq<SongEntry>)
    ensures
        forall|k: int|
            0 <= k < distinct_albums(songs).len() ==> #[trigger] album_in_catalog(
                songs,
                distinct_albums(songs)[k],
            ),
    decreases songs.len(),
{
    if songs.len() > 0 {
        let pre = songs.drop_last();
        lemma_distinct_albums_source(pre);
        let ds = distinct_albums(songs);
        assert forall|k: int|
            0 <= k < ds.len() implies #[trigger] album_in_catalog(songs, ds[k]) by {
            if k < distinct_albums(pre).len() {
                assert(album_in_catalog(pre, distinct_albums(pre)[k]));
                let j = choose|j: int|
                    0 <= j < pre.len() && (#[trigger] pre[j]).key.album == distinct_albums(pre)[k];
                assert(songs[j].key.album == ds[k]);
            } else {
                assert(songs[songs.len() - 1].key.album == ds[k]);
            }
        }
    }
}

/// The by-artist entries for a given list of artists: those with at least one
/// recorded play, each carrying its total and its frequency.
pub open spec fn artist_rows_of(
    songs: Seq<SongEntry>,
    plays: Seq<PlayEntry>,
    ks: Seq<Seq<char>>,
) -> Seq<(Seq<char>, nat, nat)>
    decreases ks.len(),
{
    if ks.len() == 0 {
        Seq::empty()
    } else {
        let pre = artist_rows_of(songs, plays, ks.drop_last());
        let t = artist_total(songs, plays, ks.last());
        if t >= 1 {
            pre.push((ks.last(), t, artist_freq(songs, ks.last())))
        } else {
            pre
        }
    }
}

/// The by-album entries for a given list of albums.
pub open spec fn album_rows_of(
    songs: Seq<SongEntry>,
    plays: Seq<PlayEntry>,
    ks: Seq<Seq<char>>,
) -> Seq<(Seq<char>, nat, nat)>
    decreases ks.len(),
{
    if ks.len() == 0 {
        Seq::empty()
    } else {
        let pre = album_rows_of(songs, plays, ks.drop_last());
        let t = album_total(songs, plays, ks.last());
        if t >= 1 {
            pre.push((ks.last(), t, album_freq(songs, ks.last())))
        } else {
            pre
        }
    }
}

/// The by-artist view's contents: one entry per distinct artist with at
/// least one recorded play, carrying its total plays and its frequency.
pub open spec fn spec_by_artist(songs: Seq<SongEntry>, plays: Seq<PlayEntry>) -> Seq<
    (Seq<char>, nat, nat),
> {
    artist_rows_of(songs, plays, distinct_artists(songs))
}

/// The by-album view's contents.
pub open spec fn spec_by_album(songs: Seq<SongEntry>, plays: Seq<PlayEntry>) -> Seq<
    (Seq<char>, nat, nat),
> {
    album_rows_of(songs, plays, distinct_albums(songs))
}

/// The abstraction of an ungrouped row: its identity and its total.
pub open spec fn abs_none_rows(v: Seq<SongDataNone>) -> Seq<(SongKey, nat)> {
    v.map_values(
        |r: SongDataNone|
            (SongKey { artist: r.artist@, album: r.album@, title: r.title@ }, r.plays as nat),
    )
}

/// The abstraction of a by-date row: its date and its total.
pub open spec fn abs_date_rows(v: Seq<SongDataDate>) -> Seq<(Date, nat)> {
    v.map_values(|r: SongDataDate| (r.date, r.plays as nat))
}

/// The abstraction of a by-artist row: its artist, total and frequency.
pub open spec fn abs_artist_rows(v: Seq<SongDataArtist>) -> Seq<(Seq<char>, nat, nat)> {
    v.map_values(|r: SongDataArtist| (r.artist@, r.plays as nat, r.freq as nat))
}

/// The abstraction of a by-album row: its album, total and frequency.
pub open spec fn abs_album_rows(v: Seq<SongDataAlbum>) -> Seq<(Seq<char>, nat, nat)> {
    v.map_values(|r: SongDataAlbum| (r.album@, r.plays as nat, r.freq as nat))
}

/// Sums the plays recorded for one song.
fn song_total_exec(store: &Store, id: u64) -> (t: u64)
    requires
        store.wf(),
    ensures
        t as nat == song_total(store@.plays, id as nat),
        t <= store.total,
{
    let mut t: u64 = 0;
    let mut j: usize = 0;
    while j < store.plays.len()
        invariant
            store.wf(),
            j <= store.plays.len(),
            store@.plays.len() == store.plays.len(),
            t as nat == song_total(store@.plays.take(j as int), id as nat),
            t <= store.total,
        decreases store.plays.len() - j,
    {
        proof {
            assert(store@.plays.take(j + 1).drop_last() =~= store@.plays.take(j as int));
            assert(store@.plays.take(j + 1).last() == store@.plays[j as int]);
            lemma_song_total_le(store@.plays.take(j + 1), id as nat);
            lemma_total_plays_take(store@.plays, j + 1);
        }
        let row = &store.plays[j];
        if row.song_id == id {
            t = t + row.plays;
        }
        j = j + 1;
    }
    proof {
        assert(store@.plays.take(store@.plays.len() as int) =~= store@.plays);
    }
    t
}

/// Sums the plays recorded on one date.
fn date_total_exec(store: &Store, d: &Date) -> (t: u64)
    requires
        store.wf(),
    ensures
        t as nat == date_total(store@.plays, *d),
        t <= store.total,
{
    let mut t: u64 = 0;
    let mut j: usize = 0;
    while j < store.plays.len()
        invariant
            store.wf(),
            j <= store.plays.len(),
            store@.plays.len() == store.plays.len(),
            t as nat == date_total(store@.plays.take(j as int), *d),
            t <= store.total,
        decreases store.plays.len() - j,
    {
        proof {
            assert(store@.plays.take(j + 1).drop_last() =~= store@.plays.take(j as int));
            assert(store@.plays.take(j + 1).last() == store@.plays[j as int]);
            lemma_date_total_le(store@.plays.take(j + 1), *d);
            lemma_total_plays_take(store@.plays, j + 1);
        }
        let row = &store.plays[j];
        if row.date == *d {
            t = t + row.plays;
        }
        j = j + 1;
    }
    proof {
        assert(store@.plays.take(store@.plays.len() as int) =~= store@.plays);
    }
    t
}

/// Finds the catalog row with the given id.
fn find_song_by_id_exec(store: &Store, id: u64) -> (r: Option<usize>)
    ensures
        match r {
            Some(i) => find_song_by_id(store@.songs, id as nat) == Some(i as int),
            None => find_song_by_id(store@.songs, id as nat) is None,
        },
{
    let mut i: usize = 0;
    while i < store.songs.len()
        invariant
            i <= store.songs.len(),
            store@.songs.len() == store.songs.len(),
            forall|j: int| 0 <= j < i ==> store@.songs[j].id != id as nat,
        decreases store.songs.len() - i,
    {
        if store.songs[i].id == id {
            proof {
                lemma_find_song_by_id_first(store@.songs, id as nat, i as int);
            }
            return Some(i);
        }
        i = i + 1;
    }
    proof {
        lemma_find_song_by_id_none(store@.songs, id as nat);
    }
    None
}

/// Sums the plays recorded under one artist.
fn artist_total_exec(store: &Store, a: &String) -> (t: u64)
    requires
        store.wf(),
    ensures
        t as nat == artist_total(store@.songs, store@.plays, a@),
        t <= store.total,
{
    let mut t: u64 = 0;
    let mut j: usize = 0;
    while j < store.plays.len()
        invariant
            store.wf(),
            j <= store.plays.len(),
            store@.plays.len() == store.plays.len(),
            t as nat == artist_total(store@.songs, store@.plays.take(j as int), a@),
            t <= store.total,
        decreases store.plays.len() - j,
    {
        proof {
            assert(store@.plays.take(j + 1).drop_last() =~= store@.plays.take(j as int));
            assert(store@.plays.take(j + 1).last() == store@.plays[j as int]);
            lemma_artist_total_le(store@.songs, store@.plays.take(j + 1), a@);
            lemma_total_plays_take(store@.plays, j + 1);
        }
        let id = store.plays[j].song_id;
        match find_song_by_id_exec(store, id) {
            Some(i) => {
                proof {
                    lemma_find_song_by_id_props(store@.songs, id as nat);
                }
                if store.songs[i].data.artist == *a {
                    t = t + store.plays[j].plays;
                }
            },
            None => {},
        }
        j = j + 1;
    }
    proof {
        assert(store@.plays.take(store@.plays.len() as int) =~= store@.plays);
    }
    t
}

/// Sums the plays recorded under one album.
fn album_total_exec(store: &Store, a: &String) -> (t: u64)
    requires
        store.wf(),
    ensures
        t as nat == album_total(store@.songs, store@.plays, a@),
        t <= store.total,
{
    let mut t: u64 = 0;
    let mut j: usize = 0;
    while j < store.plays.len()
        invariant
            store.wf(),
            j <= store.plays.len(),
            store@.plays.len() == store.plays.len(),
            t as nat == album_total(store@.songs, store@.plays.take(j as int), a@),
            t <= store.total,
        decreases store.plays.len() - j,
    {
        proof {
            assert(store@.plays.take(j + 1).drop_last() =~= store@.plays.take(j as int));
            assert(store@.plays.take(j + 1).last() == store@.plays[j as int]);
            lemma_album_total_le(store@.songs, store@.plays.take(j + 1), a@);
            lemma_total_plays_take(store@.plays, j + 1);
        }
        let id = store.plays[j].song_id;
        match find_song_by_id_exec(store, id) {
            Some(i) => {
                proof {
                    lemma_find_song_by_id_props(store@.songs, id as nat);
                }
                if store.songs[i].data.album == *a {
                    t = t + store.plays[j].plays;
                }
            },
            None => {},
        }
        j = j + 1;
    }
    proof {
        assert(store@.plays.take(store@.plays.len() as int) =~= store@.plays);
    }
    t
}

/// Counts the distinct cataloged songs under one artist.
fn artist_freq_exec(store: &Store, a: &String) -> (n: u64)
    ensures
        n as nat == artist_freq(store@.songs, a@),
        n <= store@.songs.len(),
{
    let mut n: u64 = 0;
    let mut i: usize = 0;
    while i < store.songs.len()
        invariant
            i <= store.songs.len(),
            store@.songs.len() == store.songs.len(),
            n as nat == artist_freq(store@.songs.take(i as int), a@),
            n <= i,
        decreases store.songs.len() - i,
    {
        proof {
            assert(store@.songs.take(i + 1).drop_last() =~= store@.songs.take(i as int));
            assert(store@.songs.take(i + 1).last() == store@.songs[i as int]);
        }
        if store.songs[i].data.artist == *a {
            n = n + 1;
        }
        i = i + 1;
    }
    proof {
        assert(store@.songs.take(store@.songs.len() as int) =~= store@.songs);
    }
    n
}

/// Counts the distinct cataloged songs under one album.
fn album_freq_exec(store: &Store, a: &String) -> (n: u64)
    ensures
        n as nat == album_freq(store@.songs, a@),
        n <= store@.songs.len(),
{
    let mut n: u64 = 0;
    let mut i: usize = 0;
    while i < store.songs.len()
        invariant
            i <= store.songs.len(),
            store@.songs.len() == store.songs.len(),
            n as nat == album_freq(store@.songs.take(i as int), a@),
            n <= i,
        decreases store.songs.len() - i,
    {
        proof {
            assert(store@.songs.take(i + 1).drop_last() =~= store@.songs.take(i as int));
            assert(store@.songs.take(i + 1).last() == store@.songs[i as int]);
        }
        if store.songs[i].data.album == *a {
            n = n + 1;
        }
        i = i + 1;
    }
    proof {
        assert(store@.songs.take(store@.songs.len() as int) =~= store@.songs);
    }
    n
}

/// The distinct artists of the catalog, in order of first appearance.
fn distinct_artists_exec(store: &Store) -> (keys: Vec<String>)
    ensures
        keys@.map_values(|s: String| s@) == distinct_artists(store@.songs),
{
    let mut keys: Vec<String> = Vec::new();
    let mut i: usize = 0;
    proof {
        assert(keys@.map_values(|s: String| s@) =~= distinct_artists(store@.songs.take(0)));
    }
    while i < store.songs.len()
        invariant
            i <= store.songs.len(),
            store@.songs.len() == store.songs.len(),
            keys@.map_values(|s: String| s@) == distinct_artists(store@.songs.take(i as int)),
        decreases store.songs.len() - i,
    {
        let ghost pre = keys@.map_values(|s: String| s@);
        proof {
            assert(store@.songs.take(i + 1).drop_last() =~= store@.songs.take(i as int));
            assert(store@.songs.take(i + 1).last() == store@.songs[i as int]);
        }
        let a = &store.songs[i].data.artist;
        let mut seen = false;
        let mut j: usize = 0;
        while j < keys.len()
            invariant
                j <= keys.len(),
                pre == keys@.map_values(|s: String| s@),
                pre.len() == keys.len(),
                seen == exists|k: int| 0 <= k < j && pre[k] == a@,
            decreases keys.len() - j,
        {
            proof {
                assert(pre[j as int] == keys@[j as int]@);
            }
            if keys[j] == *a {
                seen = true;
                proof {
                    assert(0 <= j < j + 1 && pre[j as int] == a@);
                }
            }
            j = j + 1;
        }
        proof {
            assert(seen == pre.contains(a@));
        }
        if !seen {
            keys.push(a.clone());
            proof {
                assert(keys@.map_values(|s: String| s@) =~= pre.push(a@));
            }
        }
        i = i + 1;
    }
    proof {
        assert(store@.songs.take(store@.songs.len() as int) =~= store@.songs);
    }
    keys
}

/// The distinct albums of the catalog, in order of first appearance.
fn distinct_albums_exec(store: &Store) -> (keys: Vec<String>)
    ensures
        keys@.map_values(|s: String| s@) == distinct_albums(store@.songs),
{
    let mut keys: Vec<String> = Vec::new();
    let mut i: usize = 0;
    proof {
        assert(keys@.map_values(|s: String| s@) =~= distinct_albums(store@.songs.take(0)));
    }
    while i < store.songs.len()
        invariant
            i <= store.songs.len(),
            store@.songs.len() == store.songs.len(),
            keys@.map_values(|s: String| s@) == distinct_albums(store@.songs.take(i as int)),
        decreases store.songs.len() - i,
    {
        let ghost pre = keys@.map_values(|s: String| s@);
        proof {
            assert(store@.songs.take(i + 1).drop_last() =~= store@.songs.take(i as int));
            assert(store@.songs.take(i + 1).last() == store@.songs[i as int]);
        }
        let a = &store.songs[i].data.album;
        let mut seen = false;
        let mut j: usize = 0;
        while j < keys.len()
            invariant
                j <= keys.len(),
                pre == keys@.map_values(|s: String| s@),
                pre.len() == keys.len(),
                seen == exists|k: int| 0 <= k < j && pre[k] == a@,
            decreases keys.len() - j,
        {
            proof {
                assert(pre[j as int] == keys@[j as int]@);
            }
            if keys[j] == *a {
                seen = true;
                proof {
                    assert(0 <= j < j + 1 && pre[j as int] == a@);
                }
            }
            j = j + 1;
        }
        proof {
            assert(seen == pre.contains(a@));
        }
        if !seen {
            keys.push(a.clone());
            proof {
                assert(keys@.map_values(|s: String| s@) =~= pre.push(a@));
            }
        }
        i = i + 1;
    }
    proof {
        assert(store@.songs.take(store@.songs.len() as int) =~= store@.songs);
    }
    keys
}

/// One entry per distinct artist: how many distinct songs the catalog holds
/// under it.
pub fn get_artist_frequency(store: &Store) -> (v: Vec<(String, u64)>)
    ensures
        v@.map_values(|p: (String, u64)| p.0@) == distinct_artists(store@.songs),
        forall|i: int|
            0 <= i < v@.len() ==> (#[trigger] v@[i]).1 as nat == artist_freq(
                store@.songs,
                v@[i].0@,
            ),
{
    let keys = distinct_artists_exec(store);
    let mut v: Vec<(String, u64)> = Vec::new();
    let mut k: usize = 0;
    proof {
        assert(v@.map_values(|p: (String, u64)| p.0@) =~= keys@.map_values(
            |s: String| s@,
        ).take(0));
    }
    while k < keys.len()
        invariant
            k <= keys.len(),
            keys@.map_values(|s: String| s@) == distinct_artists(store@.songs),
            v@.map_values(|p: (String, u64)| p.0@) == keys@.map_values(|s: String| s@).take(
                k as int,
            ),
            forall|i: int|
                0 <= i < v@.len() ==> (#[trigger] v@[i]).1 as nat == artist_freq(
                    store@.songs,
                    v@[i].0@,
                ),
        decreases keys.len() - k,
    {
        let ghost pre = v@.map_values(|p: (String, u64)| p.0@);
        let key = keys[k].clone();
        let n = artist_freq_exec(store, &key);
        v.push((key, n));
        proof {
            assert(v@.map_values(|p: (String, u64)| p.0@) =~= pre.push(keys@[k as int]@));
            assert(keys@.map_values(|s: String| s@).take(k + 1) =~= keys@.map_values(
                |s: String| s@,
            ).take(k as int).push(keys@[k as int]@));
        }
        k = k + 1;
    }
    proof {
        assert(keys@.map_values(|s: String| s@).take(keys@.len() as int) =~= keys@.map_values(
            |s: String| s@,
        ));
    }
    v
}

/// One entry per distinct album: how many distinct songs the catalog holds
/// under it.
pub fn get_album_frequency(store: &Store) -> (v: Vec<(String, u64)>)
    ensures
        v@.map_values(|p: (String, u64)| p.0@) == distinct_albums(store@.songs),
        forall|i: int|
            0 <= i < v@.len() ==> (#[trigger] v@[i]).1 as nat == album_freq(
                store@.songs,
                v@[i].0@,
            ),
{
    let keys = distinct_albums_exec(store);
    let mut v: Vec<(String, u64)> = Vec::new();
    let mut k: usize = 0;
    proof {
        assert(v@.map_values(|p: (String, u64)| p.0@) =~= keys@.map_values(
            |s: String| s@,
        ).take(0));
    }
    while k < keys.len()
        invariant
            k <= keys.len(),
            keys@.map_values(|s: String| s@) == distinct_albums(store@.songs),
            v@.map_values(|p: (String, u64)| p.0@) == keys@.map_values(|s: String| s@).take(
                k as int,
            ),
            forall|i: int|
                0 <= i < v@.len() ==> (#[trigger] v@[i]).1 as nat == album_freq(
                    store@.songs,
                    v@[i].0@,
                ),
        decreases keys.len() - k,
    {
        let ghost pre = v@.map_values(|p: (String, u64)| p.0@);
        let key = keys[k].clone();
        let n = album_freq_exec(store, &key);
        v.push((key, n));
        proof {
            assert(v@.map_values(|p: (String, u64)| p.0@) =~= pre.push(keys@[k as int]@));
            assert(keys@.map_values(|s: String| s@).take(k + 1) =~= keys@.map_values(
                |s: String| s@,
            ).take(k as int).push(keys@[k as int]@));
        }
        k = k + 1;
    }
    proof {
        assert(keys@.map_values(|s: String| s@).take(keys@.len() as int) =~= keys@.map_values(
            |s: String| s@,
        ));
    }
    v
}

/// Builds the ungrouped view: one row per song with at least one play,
/// carrying its total over all dates, ranked most played first.
pub fn get_data_vec_none(store: &Store) -> (v: Vec<SongDataNone>)
    requires
        store.wf(),
        store.total <= u32::MAX,
    ensures
        abs_none_rows(v@).to_multiset() == spec_ungrouped(store@.songs, store@.plays).to_multiset(),
        sorted_by(v@, le_fn::<SortDirection, SongDataNone>(SortDirection(Sort::Plays, true))),
        forall|i: int|
            0 <= i < v@.len() ==> (#[trigger] v@[i]).plays_string@ == spec_decimal(
                v@[i].plays as nat,
            ),
{
    let ghost m = store@;
    let mut rows: Vec<SongDataNone> = Vec::new();
    let mut i: usize = 0;
    proof {
        assert(abs_none_rows(rows@) =~= spec_ungrouped(m.songs.take(0), m.plays));
    }
    while i < store.songs.len()
        invariant
            store.wf(),
            store.total <= u32::MAX,
            m == store@,
            i <= store.songs.len(),
            m.songs.len() == store.songs.len(),
            abs_none_rows(rows@) == spec_ungrouped(m.songs.take(i as int), m.plays),
            forall|k: int|
                0 <= k < rows@.len() ==> (#[trigger] rows@[k]).plays_string@ == spec_decimal(
                    rows@[k].plays as nat,
                ),
        decreases store.songs.len() - i,
    {
        let ghost pre = abs_none_rows(rows@);
        proof {
            assert(m.songs.take(i + 1).drop_last() =~= m.songs.take(i as int));
            assert(m.songs.take(i + 1).last() == m.songs[i as int]);
        }
        let s = &store.songs[i];
        let t = song_total_exec(store, s.id);
        if t >= 1 {
            let row = SongDataNone::new(
                s.data.artist.clone(),
                s.data.album.clone(),
                s.data.title.clone(),
                t as u32,
            );
            rows.push(row);
            proof {
                assert(abs_none_rows(rows@) =~= pre.push((m.songs[i as int].key, t as nat)));
            }
        }
        i = i + 1;
    }
    proof {
        assert(m.songs.take(m.songs.len() as int) =~= m.songs);
    }
    let ghost built = rows@;
    sort_rows(&mut rows, &SortDirection(Sort::Plays, true));
    proof {
        let le = le_fn::<SortDirection, SongDataNone>(SortDirection(Sort::Plays, true));
        <SongDataNone as RowOrd<SortDirection>>::le_total(SortDirection(Sort::Plays, true));
        lemma_stable_sort_by_ensures(le, built);
        lemma_map_multiset(
            rows@,
            built,
            |r: SongDataNone|
                (SongKey { artist: r.artist@, album: r.album@, title: r.title@ }, r.plays as nat),
        );
        lemma_multiset_pointwise(
            rows@,
            built,
            |r: SongDataNone| r.plays_string@ == spec_decimal(r.plays as nat),
        );
    }
    rows
}

/// Builds the by-date view: one row per distinct date, carrying the date's
/// total plays over all songs, ranked most played first.
pub fn get_data_vec_date(store: &Store) -> (v: Vec<SongDataDate>)
    requires
        store.wf(),
        store.total <= u32::MAX,
    ensures
        abs_date_rows(v@).to_multiset() == spec_by_date(store@.plays).to_multiset(),
        sorted_by(v@, le_fn::<(), SongDataDate>(())),
{
    let ghost m = store@;
    // the distinct dates, in order of first appearance
    let mut dates: Vec<Date> = Vec::new();
    let mut i: usize = 0;
    proof {
        assert(dates@ =~= distinct_dates(m.plays.take(0)));
    }
    while i < store.plays.len()
        invariant
            store.wf(),
            m == store@,
            i <= store.plays.len(),
            m.plays.len() == store.plays.len(),
            dates@ == distinct_dates(m.plays.take(i as int)),
        decreases store.plays.len() - i,
    {
        proof {
            assert(m.plays.take(i + 1).drop_last() =~= m.plays.take(i as int));
            assert(m.plays.take(i + 1).last() == m.plays[i as int]);
        }
        let d = store.plays[i].date;
        let mut seen = false;
        let mut j: usize = 0;
        while j < dates.len()
            invariant
                j <= dates.len(),
                seen == exists|k: int| 0 <= k < j && dates@[k] == d,
            decreases dates.len() - j,
        {
            if dates[j] == d {
                seen = true;
            }
            j = j + 1;
        }
        proof {
            assert(seen == dates@.contains(d));
        }
        if !seen {
            dates.push(d);
        }
        i = i + 1;
    }
    proof {
        assert(m.plays.take(m.plays.len() as int) =~= m.plays);
    }
    // one row per date
    let mut rows: Vec<SongDataDate> = Vec::new();
    let mut k: usize = 0;
    proof {
        assert(abs_date_rows(rows@) =~= date_rows_of(m.plays, dates@.take(0)));
    }
    while k < dates.len()
        invariant
            store.wf(),
            store.total <= u32::MAX,
            m == store@,
            k <= dates.len(),
            dates@ == distinct_dates(m.plays),
            abs_date_rows(rows@) == date_rows_of(m.plays, dates@.take(k as int)),
        decreases dates.len() - k,
    {
        let ghost pre = abs_date_rows(rows@);
        let d = dates[k];
        let t = date_total_exec(store, &d);
        rows.push(SongDataDate::new(d, t as u32));
        proof {
            assert(abs_date_rows(rows@) =~= pre.push((d, t as nat)));
            assert(date_rows_of(m.plays, dates@.take(k + 1)) =~= date_rows_of(
                m.plays,
                dates@.take(k as int),
            ).push((d, date_total(m.plays, d))));
        }
        k = k + 1;
    }
    proof {
        assert(dates@.take(dates@.len() as int) =~= dates@);
    }
    let ghost built = rows@;
    sort_rows(&mut rows, &());
    proof {
        let le = le_fn::<(), SongDataDate>(());
        <SongDataDate as RowOrd<()>>::le_total(());
        lemma_stable_sort_by_ensures(le, built);
        lemma_map_multiset(rows@, built, |r: SongDataDate| (r.date, r.plays as nat));
    }
    rows
}

/// Builds the by-artist view: one row per distinct artist with at least one
/// recorded play, carrying its total plays and its frequency, ranked most
/// played first.
pub fn get_data_vec_artist(store: &Store) -> (v: Vec<SongDataArtist>)
    requires
        store.wf(),
        store.total <= u32::MAX,
        store@.songs.len() <= u32::MAX,
    ensures
        abs_artist_rows(v@).to_multiset() == spec_by_artist(
            store@.songs,
            store@.plays,
        ).to_multiset(),
        sorted_by(v@, le_fn::<bool, SongDataArtist>(false)),
        forall|i: int| 0 <= i < v@.len() ==> (#[trigger] v@[i]).plays >= 1 && v@[i].freq >= 1,
{
    let ghost m = store@;
    let keys = distinct_artists_exec(store);
    let ghost kviews = keys@.map_values(|s: String| s@);
    let mut rows: Vec<SongDataArtist> = Vec::new();
    let mut k: usize = 0;
    proof {
        assert(abs_artist_rows(rows@) =~= artist_rows_of(m.songs, m.plays, kviews.take(0)));
    }
    while k < keys.len()
        invariant
            store.wf(),
            store.total <= u32::MAX,
            m == store@,
            m.songs.len() <= u32::MAX,
            k <= keys.len(),
            kviews == keys@.map_values(|s: String| s@),
            kviews.len() == keys.len(),
            kviews == distinct_artists(m.songs),
            abs_artist_rows(rows@) == artist_rows_of(m.songs, m.plays, kviews.take(k as int)),
            forall|i: int| 0 <= i < rows@.len() ==> (#[trigger] rows@[i]).plays >= 1
                && rows@[i].freq >= 1,
        decreases keys.len() - k,
    {
        let ghost pre = abs_artist_rows(rows@);
        proof {
            assert(kviews.take(k + 1).drop_last() =~= kviews.take(k as int));
            assert(kviews.take(k + 1).last() == kviews[k as int]);
            assert(keys@[k as int]@ == kviews[k as int]);
        }
        let key = keys[k].clone();
        let t = artist_total_exec(store, &key);
        if t >= 1 {
            proof {
                lemma_distinct_artists_source(m.songs);
                assert(kviews[k as int] == distinct_artists(m.songs)[k as int]);
                assert(artist_in_catalog(m.songs, distinct_artists(m.songs)[k as int]));
                lemma_artist_freq_pos(m.songs, kviews[k as int]);
                lemma_artist_freq_le(m.songs, kviews[k as int]);
            }
            let n = artist_freq_exec(store, &key);
            rows.push(SongDataArtist::new(key, t as u32, n as u32));
            proof {
                assert(abs_artist_rows(rows@) =~= pre.push(
                    (kviews[k as int], t as nat, n as nat),
                ));
            }
        }
        k = k + 1;
    }
    proof {
        assert(kviews.take(kviews.len() as int) =~= kviews);
    }
    let ghost built = rows@;
    sort_rows(&mut rows, &false);
    proof {
        let le = le_fn::<bool, SongDataArtist>(false);
        <SongDataArtist as RowOrd<bool>>::le_total(false);
        lemma_stable_sort_by_ensures(le, built);
        lemma_map_multiset(
            rows@,
            built,
            |r: SongDataArtist| (r.artist@, r.plays as nat, r.freq as nat),
        );
        lemma_multiset_pointwise(rows@, built, |r: SongDataArtist| r.plays >= 1 && r.freq >= 1);
    }
    rows
}

/// Builds the by-album view: one row per distinct album with at least one
/// recorded play, carrying its total plays and its frequency, ranked most
/// played first.
pub fn get_data_vec_album(store: &Store) -> (v: Vec<SongDataAlbum>)
    requires
        store.wf(),
        store.total <= u32::MAX,
        store@.songs.len() <= u32::MAX,
    ensures
        abs_album_rows(v@).to_multiset() == spec_by_album(
            store@.songs,
            store@.plays,
        ).to_multiset(),
        sorted_by(v@, le_fn::<bool, SongDataAlbum>(false)),
        forall|i: int| 0 <= i < v@.len() ==> (#[trigger] v@[i]).plays >= 1 && v@[i].freq >= 1,
{
    let ghost m = store@;
    let keys = distinct_albums_exec(store);
    let ghost kviews = keys@.map_values(|s: String| s@);
    let mut rows: Vec<SongDataAlbum> = Vec::new();
    let mut k: usize = 0;
    proof {
        assert(abs_album_rows(rows@) =~= album_rows_of(m.songs, m.plays, kviews.take(0)));
    }
    while k < keys.len()
        invariant
            store.wf(),
            store.total <= u32::MAX,
            m == store@,
            m.songs.len() <= u32::MAX,
            k <= keys.len(),
            kviews == keys@.map_values(|s: String| s@),
            kviews.len() == keys.len(),
            kviews == distinct_albums(m.songs),
            abs_album_rows(rows@) == album_rows_of(m.songs, m.plays, kviews.take(k as int)),
            forall|i: int| 0 <= i < rows@.len() ==> (#[trigger] rows@[i]).plays >= 1
                && rows@[i].freq >= 1,
        decreases keys.len() - k,
    {
        let ghost pre = abs_album_rows(rows@);
        proof {
            assert(kviews.take(k + 1).drop_last() =~= kviews.take(k as int));
            assert(kviews.take(k + 1).last() == kviews[k as int]);
            assert(keys@[k as int]@ == kviews[k as int]);
        }
        let key = keys[k].clone();
        let t = album_total_exec(store, &key);
        if t >= 1 {
            proof {
                lemma_distinct_albums_source(m.songs);
                assert(kviews[k as int] == distinct_albums(m.songs)[k as int]);
                assert(album_in_catalog(m.songs, distinct_albums(m.songs)[k as int]));
                lemma_album_freq_pos(m.songs, kviews[k as int]);
                lemma_album_freq_le(m.songs, kviews[k as int]);
            }
            let n = album_freq_exec(store, &key);
            rows.push(SongDataAlbum::new(key, t as u32, n as u32));
            proof {
                assert(abs_album_rows(rows@) =~= pre.push((kviews[k as int], t as nat, n as nat)));
            }
        }
        k = k + 1;
    }
    proof {
        assert(kviews.take(kviews.len() as int) =~= kviews);
    }
    let ghost built = rows@;
    sort_rows(&mut rows, &false);
    proof {
        let le = le_fn::<bool, SongDataAlbum>(false);
        <SongDataAlbum as RowOrd<bool>>::le_total(false);
        lemma_stable_sort_by_ensures(le, built);
        lemma_map_multiset(
            rows@,
            built,
            |r: SongDataAlbum| (r.album@, r.plays as nat, r.freq as nat),
        );
        lemma_multiset_pointwise(rows@, built, |r: SongDataAlbum| r.plays >= 1 && r.freq >= 1);
    }
    rows
}

/// The weights of a grouped view's entries: each key's exact fraction
/// `plays / freq`.
pub open spec fn weights_of(rows: Seq<(Seq<char>, nat, nat)>) -> Seq<crate::weighted::Weight> {
    rows.map_values(
        |r: (Seq<char>, nat, nat)| crate::weighted::Weight { plays: r.1 as int, freq: r.2 as int },
    )
}

/// Every by-artist entry records at least one play for a key with at least
/// one cataloged song.
proof fn lemma_artist_rows_positive(
    songs: Seq<SongEntry>,
    plays: Seq<PlayEntry>,
    ks: Seq<Seq<char>>,
)
    requires
        forall|k: int| 0 <= k < ks.len() ==> artist_in_catalog(songs, #[trigger] ks[k]),
    ensures
        forall|k: int|
            0 <= k < artist_rows_of(songs, plays, ks).len() ==> (#[trigger] artist_rows_of(
                songs,
                plays,
                ks,
            )[k]).1 >= 1 && artist_rows_of(songs, plays, ks)[k].2 >= 1,
    decreases ks.len(),
{
    if ks.len() > 0 {
        let pre = ks.drop_last();
        assert(forall|k: int| 0 <= k < pre.len() ==> pre[k] == ks[k]);
        lemma_artist_rows_positive(songs, plays, pre);
        let rows = artist_rows_of(songs, plays, ks);
        let prows = artist_rows_of(songs, plays, pre);
        if artist_total(songs, plays, ks.last()) >= 1 {
            assert(artist_in_catalog(songs, ks[ks.len() - 1]));
            lemma_artist_freq_pos(songs, ks.last());
            assert(forall|k: int| 0 <= k < prows.len() ==> rows[k] == prows[k]);
            assert(rows[rows.len() - 1].1 >= 1 && rows[rows.len() - 1].2 >= 1);
        } else {
            assert(rows == prows);
        }
    }
}

/// Every by-album entry records at least one play for a key with at least
/// one cataloged song.
proof fn lemma_album_rows_positive(
    songs: Seq<SongEntry>,
    plays: Seq<PlayEntry>,
    ks: Seq<Seq<char>>,
)
    requires
        forall|k: int| 0 <= k < ks.len() ==> album_in_catalog(songs, #[trigger] ks[k]),
    ensures
        forall|k: int|
            0 <= k < album_rows_of(songs, plays, ks).len() ==> (#[trigger] album_rows_of(
                songs,
                plays,
                ks,
            )[k]).1 >= 1 && album_rows_of(songs, plays, ks)[k].2 >= 1,
    decreases ks.len(),
{
    if ks.len() > 0 {
        let pre = ks.drop_last();
        assert(forall|k: int| 0 <= k < pre.len() ==> pre[k] == ks[k]);
        lemma_album_rows_positive(songs, plays, pre);
        let rows = album_rows_of(songs, plays, ks);
        let prows = album_rows_of(songs, plays, pre);
        if album_total(songs, plays, ks.last()) >= 1 {
            assert(album_in_catalog(songs, ks[ks.len() - 1]));
            lemma_album_freq_pos(songs, ks.last());
            assert(forall|k: int| 0 <= k < prows.len() ==> rows[k] == prows[k]);
            assert(rows[rows.len() - 1].1 >= 1 && rows[rows.len() - 1].2 >= 1);
        } else {
            assert(rows == prows);
        }
    }
}

/// Weighted-share normalization for the by-artist view: over the weights
/// `plays / freq` of a non-empty view, the total weight is a well-defined
/// positive fraction and the shares — each key's weight over the total — sum
/// to exactly one, as [`crate::weighted::lemma_weighted_shares_sum_to_one`]
/// states them.
pub proof fn lemma_by_artist_shares_sum_to_one(songs: Seq<SongEntry>, plays: Seq<PlayEntry>)
    requires
        spec_by_artist(songs, plays).len() > 0,
    ensures
        ({
            let w = weights_of(spec_by_artist(songs, plays));
            &&& crate::weighted::share_sum(w) == crate::weighted::weight_frac(w).0
            &&& crate::weighted::weight_frac(w).0 >= 1
            &&& crate::weighted::weight_frac(w).1 >= 1
        }),
{
    let rows = spec_by_artist(songs, plays);
    let w = weights_of(rows);
    lemma_distinct_artists_source(songs);
    assert(forall|k: int|
        0 <= k < distinct_artists(songs).len() ==> artist_in_catalog(
            songs,
            #[trigger] distinct_artists(songs)[k],
        ));
    lemma_artist_rows_positive(songs, plays, distinct_artists(songs));
    assert(forall|k: int| 0 <= k < w.len() ==> (#[trigger] w[k]).freq >= 1);
    assert(forall|k: int| 0 <= k < w.len() ==> (#[trigger] w[k]).plays >= 1);
    crate::weighted::lemma_weighted_shares_sum_to_one(w);
}

/// Weighted-share normalization for the by-album view.
pub proof fn lemma_by_album_shares_sum_to_one(songs: Seq<SongEntry>, plays: Seq<PlayEntry>)
    requires
        spec_by_album(songs, plays).len() > 0,
    ensures
        ({
            let w = weights_of(spec_by_album(songs, plays));
            &&& crate::weighted::share_sum(w) == crate::weighted::weight_frac(w).0
            &&& crate::weighted::weight_frac(w).0 >= 1
            &&& crate::weighted::weight_frac(w).1 >= 1
        }),
{
    let rows = spec_by_album(songs, plays);
    let w = weights_of(rows);
    lemma_distinct_albums_source(songs);
    assert(forall|k: int|
        0 <= k < distinct_albums(songs).len() ==> album_in_catalog(
            songs,
            #[trigger] distinct_albums(songs)[k],
        ));
    lemma_album_rows_positive(songs, plays, distinct_albums(songs));
    assert(forall|k: int| 0 <= k < w.len() ==> (#[trigger] w[k]).freq >= 1);
    assert(forall|k: int| 0 <= k < w.len() ==> (#[trigger] w[k]).plays >= 1);
    crate::weighted::lemma_weighted_shares_sum_to_one(w);
}

} // verus!

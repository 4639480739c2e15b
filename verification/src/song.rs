//! Track identity: the `(artist, album, title)` triple that names a song.

use vstd::prelude::*;

verus! {

/// The identity of a track. Multiple performers are flattened into `artist`
/// by joining with a fixed separator before the identity is formed; equality
/// is exact string equality on all three fields.
#[derive(Debug)]
pub struct SongData {
    pub artist: String,
    pub album: String,
    pub title: String,
}

/// The mathematical value of a track identity: the three name fields as
/// character sequences.
#[verifier::ext_equal]
pub struct SongKey {
    pub artist: Seq<char>,
    pub album: Seq<char>,
    pub title: Seq<char>,
}

impl SongKey {
    /// A key with any empty field is invalid and can never be committed.
    pub open spec fn valid(self) -> bool {
        self.artist.len() > 0 && self.album.len() > 0 && self.title.len() > 0
    }
}

impl View for SongData {
    type V = SongKey;

    open spec fn view(&self) -> SongKey {
        SongKey { artist: self.artist@, album: self.album@, title: self.title@ }
    }
}

impl SongData {
    /// An identity with any empty field is invalid and can never be committed.
    pub open spec fn valid(&self) -> bool {
        self@.valid()
    }

    pub fn new(artist: String, album: String, title: String) -> (s: SongData)
        ensures
            s.artist@ == artist@,
            s.album@ == album@,
            s.title@ == title@,
    {
        SongData { artist, album, title }
    }

    /// Whether every field is non-empty, so that the identity may be tracked
    /// and committed.
    pub fn is_valid(&self) -> (r: bool)
        ensures
            r == self.valid(),
    {
        self.artist.as_str().unicode_len() > 0 && self.album.as_str().unicode_len() > 0
            && self.title.as_str().unicode_len() > 0
    }
}

impl Clone for SongData {
    fn clone(&self) -> (s: Self)
        ensures
            s.artist@ == self.artist@,
            s.album@ == self.album@,
            s.title@ == self.title@,
    {
        SongData { artist: self.artist.clone(), album: self.album.clone(), title: self.title.clone() }
    }
}

impl PartialEq for SongData {
    fn eq(&self, other: &Self) -> (r: bool) {
        let r = self.artist == other.artist && self.album == other.album
            && self.title == other.title;
        proof {
            if r {
                assert(self@ =~= other@);
            }
        }
        r
    }
}

impl vstd::std_specs::cmp::PartialEqSpecImpl for SongData {
    open spec fn obeys_eq_spec() -> bool {
        true
    }

    open spec fn eq_spec(&self, other: &Self) -> bool {
        self@ == other@
    }
}

impl Default for SongData {
    /// The identity with all three fields empty; it is invalid.
    fn default() -> (s: Self)
        ensures
            s.artist@.len() == 0,
            s.album@.len() == 0,
            s.title@.len() == 0,
            !s.valid(),
    {
        SongData { artist: String::new(), album: String::new(), title: String::new() }
    }
}

/// Flattens a list of performers into a single `artist` string by joining
/// with the separator `" / "`.
pub fn join_artists(names: &Vec<String>) -> (r: String)
    ensures
        r@ == spec_join_artists(names@.map_values(|n: String| n@)),
{
    let mut r = String::new();
    let mut i: usize = 0;
    while i < names.len()
        invariant
            i <= names@.len(),
            r@ == spec_join_artists(names@.map_values(|n: String| n@).take(i as int)),
        decreases names@.len() - i,
    {
        if i > 0 {
            r.append(" / ");
        }
        r.append(names[i].as_str());
        proof {
            let parts = names@.map_values(|n: String| n@);
            assert(parts.take(i + 1).drop_last() =~= parts.take(i as int));
            assert(parts.take(i + 1).last() == parts[i as int]);
        }
        i = i + 1;
    }
    proof {
        let parts = names@.map_values(|n: String| n@);
        assert(parts.take(names@.len() as int) =~= parts);
    }
    r
}

/// The sequence of performer names joined with `" / "`.
pub open spec fn spec_join_artists(parts: Seq<Seq<char>>) -> Seq<char>
    decreases parts.len(),
{
    if parts.len() == 0 {
        Seq::empty()
    } else if parts.len() == 1 {
        parts[0]
    } else {
        spec_join_artists(parts.drop_last()) + " / "@ + parts.last()
    }
}

} // verus!

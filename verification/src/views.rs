//! The rows of the four statistics views, and the orders they can be ranked
//! by.

use vstd::prelude::*;
use crate::date::Date;
use crate::decimal::{u64_to_string, spec_decimal};
use crate::order::{seq_char_le, lemma_seq_char_le_total, lemma_seq_char_le_trans, str_le, Sort,
    SortDirection, RowOrd};
use crate::sorting::total_preorder;

verus! {

/// One row of the ungrouped view: a song and its total plays over all dates,
/// with the count pre-rendered for display.
#[derive(Debug)]
pub struct SongDataNone {
    pub artist: String,
    pub album: String,
    pub title: String,
    pub plays_string: String,
    pub plays: u32,
}

/// One row of the by-date view: a date and the total plays on it.
#[derive(Clone, Copy, Debug)]
pub struct SongDataDate {
    pub date: Date,
    pub plays: u32,
}

/// One row of the by-artist view: an artist, the total plays under it, and
/// the number of distinct cataloged songs under it. `plays / freq` is the
/// row's exact weight for the weighted display.
#[derive(Debug)]
pub struct SongDataArtist {
    pub artist: String,
    pub plays: u32,
    pub freq: u32,
}

/// One row of the by-album view, shaped as the by-artist row is.
#[derive(Debug)]
pub struct SongDataAlbum {
    pub album: String,
    pub plays: u32,
    pub freq: u32,
}

impl SongDataNone {
    pub fn new(artist: String, album: String, title: String, plays: u32) -> (r: Self)
        ensures
            r.artist@ == artist@,
            r.album@ == album@,
            r.title@ == title@,
            r.plays == plays,
            r.plays_string@ == spec_decimal(plays as nat),
    {
        SongDataNone { plays_string: u64_to_string(plays as u64), artist, album, title, plays }
    }

    /// The row's four cells, in display order.
    pub fn ref_array(&self) -> (r: [&str; 4])
        ensures
            r[0]@ == self.artist@,
            r[1]@ == self.album@,
            r[2]@ == self.title@,
            r[3]@ == self.plays_string@,
    {
        [self.artist.as_str(), self.album.as_str(), self.title.as_str(), self.plays_string.as_str()]
    }

    pub fn artist(&self) -> (r: &str)
        ensures
            r@ == self.artist@,
    {
        self.artist.as_str()
    }

    pub fn album(&self) -> (r: &str)
        ensures
            r@ == self.album@,
    {
        self.album.as_str()
    }

    pub fn title(&self) -> (r: &str)
        ensures
            r@ == self.title@,
    {
        self.title.as_str()
    }

    pub fn plays_string(&self) -> (r: &str)
        ensures
            r@ == self.plays_string@,
    {
        self.plays_string.as_str()
    }

    pub fn plays(&self) -> (r: u32)
        ensures
            r == self.plays,
    {
        self.plays
    }
}

impl Clone for SongDataNone {
    fn clone(&self) -> (r: Self)
        ensures
            r.artist@ == self.artist@,
            r.album@ == self.album@,
            r.title@ == self.title@,
            r.plays_string@ == self.plays_string@,
            r.plays == self.plays,
    {
        SongDataNone {
            artist: self.artist.clone(),
            album: self.album.clone(),
            title: self.title.clone(),
            plays_string: self.plays_string.clone(),
            plays: self.plays,
        }
    }
}

impl SongDataDate {
    pub fn new(date: Date, plays: u32) -> (r: Self)
        ensures
            r.date == date,
            r.plays == plays,
    {
        SongDataDate { date, plays }
    }
}

impl SongDataArtist {
    pub fn new(artist: String, plays: u32, freq: u32) -> (r: Self)
        ensures
            r.artist@ == artist@,
            r.plays == plays,
            r.freq == freq,
    {
        SongDataArtist { artist, plays, freq }
    }
}

impl SongDataAlbum {
    pub fn new(album: String, plays: u32, freq: u32) -> (r: Self)
        ensures
            r.album@ == album@,
            r.plays == plays,
            r.freq == freq,
    {
        SongDataAlbum { album, plays, freq }
    }
}

/// The ascending order that one sort field puts on ungrouped rows.
pub open spec fn none_field_le(f: Sort, a: SongDataNone, b: SongDataNone) -> bool {
    match f {
        Sort::Artist => seq_char_le(a.artist@, b.artist@),
        Sort::Album => seq_char_le(a.album@, b.album@),
        Sort::Title => seq_char_le(a.title@, b.title@),
        Sort::Plays => a.plays <= b.plays,
    }
}

impl RowOrd<SortDirection> for SongDataNone {
    /// The order of one sort-priority entry: its field's order, reversed when
    /// the entry is descending.
    open spec fn le_spec(k: SortDirection, a: Self, b: Self) -> bool {
        if k.1 {
            none_field_le(k.0, b, a)
        } else {
            none_field_le(k.0, a, b)
        }
    }

    fn le(k: &SortDirection, a: &Self, b: &Self) -> (r: bool) {
        let (x, y) = if k.1 {
            (b, a)
        } else {
            (a, b)
        };
        match k.0 {
            Sort::Artist => str_le(x.artist.as_str(), y.artist.as_str()),
            Sort::Album => str_le(x.album.as_str(), y.album.as_str()),
            Sort::Title => str_le(x.title.as_str(), y.title.as_str()),
            Sort::Plays => x.plays <= y.plays,
        }
    }

    proof fn le_total(k: SortDirection) {
        let le = |a: Self, b: Self| Self::le_spec(k, a, b);
        assert forall|a: Self, b: Self| #[trigger] le(a, b) || #[trigger] le(b, a) by {
            lemma_seq_char_le_total(a.artist@, b.artist@);
            lemma_seq_char_le_total(a.album@, b.album@);
            lemma_seq_char_le_total(a.title@, b.title@);
        }
        assert forall|a: Self, b: Self, c: Self| #[trigger] le(a, b) && #[trigger] le(b, c)
            implies le(a, c) by {
            match k.0 {
                Sort::Artist => {
                    if k.1 {
                        lemma_seq_char_le_trans(c.artist@, b.artist@, a.artist@);
                    } else {
                        lemma_seq_char_le_trans(a.artist@, b.artist@, c.artist@);
                    }
                },
                Sort::Album => {
                    if k.1 {
                        lemma_seq_char_le_trans(c.album@, b.album@, a.album@);
                    } else {
                        lemma_seq_char_le_trans(a.album@, b.album@, c.album@);
                    }
                },
                Sort::Title => {
                    if k.1 {
                        lemma_seq_char_le_trans(c.title@, b.title@, a.title@);
                    } else {
                        lemma_seq_char_le_trans(a.title@, b.title@, c.title@);
                    }
                },
                Sort::Plays => {},
            }
        }
    }
}

impl RowOrd<()> for SongDataDate {
    /// By-date rows are ranked by total plays, most played first.
    open spec fn le_spec(k: (), a: Self, b: Self) -> bool {
        a.plays >= b.plays
    }

    fn le(k: &(), a: &Self, b: &Self) -> (r: bool) {
        a.plays >= b.plays
    }

    proof fn le_total(k: ()) {
    }
}

/// A frequency clamped below at one, so that comparing weights by
/// cross-multiplication is well-defined on every row.
pub open spec fn pos_freq(f: u32) -> int {
    if f >= 1 {
        f as int
    } else {
        1
    }
}

/// The weighted order: by the exact weight `plays / freq`, largest first,
/// compared by cross-multiplication.
pub open spec fn weighted_ge(ap: u32, af: u32, bp: u32, bf: u32) -> bool {
    ap * pos_freq(bf) >= bp * pos_freq(af)
}

/// The weighted order is total and transitive.
proof fn lemma_weighted_ge_preorder()
    ensures
        forall|ap: u32, af: u32, bp: u32, bf: u32|
            #[trigger] weighted_ge(ap, af, bp, bf) || #[trigger] weighted_ge(bp, bf, ap, af),
        forall|ap: u32, af: u32, bp: u32, bf: u32, cp: u32, cf: u32|
            #[trigger] weighted_ge(ap, af, bp, bf) && #[trigger] weighted_ge(bp, bf, cp, cf)
                ==> weighted_ge(ap, af, cp, cf),
{
    assert forall|ap: u32, af: u32, bp: u32, bf: u32|
        #[trigger] weighted_ge(ap, af, bp, bf) || #[trigger] weighted_ge(bp, bf, ap, af) by {
        assert(ap * pos_freq(bf) >= bp * pos_freq(af) || bp * pos_freq(af) >= ap * pos_freq(bf));
    }
    assert forall|ap: u32, af: u32, bp: u32, bf: u32, cp: u32, cf: u32|
        #[trigger] weighted_ge(ap, af, bp, bf) && #[trigger] weighted_ge(bp, bf, cp, cf) implies
        weighted_ge(ap, af, cp, cf) by {
        let fa = pos_freq(af);
        let fb = pos_freq(bf);
        let fc = pos_freq(cf);
        assert(ap * fc >= cp * fa) by (nonlinear_arith)
            requires
                ap * fb >= bp * fa,
                bp * fc >= cp * fb,
                fa >= 1,
                fb >= 1,
                fc >= 1,
                ap >= 0,
                bp >= 0,
                cp >= 0,
        ;
    }
}

/// Compares two weights `ap/af` and `bp/bf` by cross-multiplication.
fn weighted_ge_exec(ap: u32, af: u32, bp: u32, bf: u32) -> (r: bool)
    ensures
        r == weighted_ge(ap, af, bp, bf),
{
    let fa: u64 = if af >= 1 {
        af as u64
    } else {
        1
    };
    let fb: u64 = if bf >= 1 {
        bf as u64
    } else {
        1
    };
    proof {
        assert((ap as int) * (fb as int) <= 0xffff_ffff * 0xffff_ffff) by (nonlinear_arith)
            requires
                0 <= ap <= 0xffff_ffff,
                0 <= fb <= 0xffff_ffff,
        ;
        assert((bp as int) * (fa as int) <= 0xffff_ffff * 0xffff_ffff) by (nonlinear_arith)
            requires
                0 <= bp <= 0xffff_ffff,
                0 <= fa <= 0xffff_ffff,
        ;
    }
    (ap as u64) * fb >= (bp as u64) * fa
}

impl RowOrd<bool> for SongDataArtist {
    /// By-artist rows are ranked most played first, or — when the weighted
    /// display is on — largest weight `plays / freq` first.
    open spec fn le_spec(weighted: bool, a: Self, b: Self) -> bool {
        if weighted {
            weighted_ge(a.plays, a.freq, b.plays, b.freq)
        } else {
            a.plays >= b.plays
        }
    }

    fn le(weighted: &bool, a: &Self, b: &Self) -> (r: bool) {
        if *weighted {
            weighted_ge_exec(a.plays, a.freq, b.plays, b.freq)
        } else {
            a.plays >= b.plays
        }
    }

    proof fn le_total(weighted: bool) {
        lemma_weighted_ge_preorder();
    }
}

impl RowOrd<bool> for SongDataAlbum {
    /// By-album rows are ranked as by-artist rows are.
    open spec fn le_spec(weighted: bool, a: Self, b: Self) -> bool {
        if weighted {
            weighted_ge(a.plays, a.freq, b.plays, b.freq)
        } else {
            a.plays >= b.plays
        }
    }

    fn le(weighted: &bool, a: &Self, b: &Self) -> (r: bool) {
        if *weighted {
            weighted_ge_exec(a.plays, a.freq, b.plays, b.freq)
        } else {
            a.plays >= b.plays
        }
    }

    proof fn le_total(weighted: bool) {
        lemma_weighted_ge_preorder();
    }
}

} // verus!

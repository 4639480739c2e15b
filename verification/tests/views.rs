use mpressed::aggregate::{
    get_album_frequency, get_artist_frequency, get_data_vec_album, get_data_vec_artist,
    get_data_vec_date, get_data_vec_none,
};
use mpressed::date::Date;
use mpressed::song::SongData;
use mpressed::store::Store;

fn ident(artist: &str, album: &str, title: &str) -> SongData {
    SongData::new(artist.to_string(), album.to_string(), title.to_string())
}

fn date(y: u32, m: u32, d: u32) -> Date {
    Date::new(y, m, d).unwrap()
}

/// A small catalog: artist A with two songs (3 + 1 plays), artist B with one
/// song (2 plays), spread over two dates.
fn fixture() -> Store {
    let mut store = Store::new();
    let d1 = date(2024, 5, 7);
    let d2 = date(2024, 5, 8);
    let x = ident("A", "Alb1", "T1");
    let y = ident("A", "Alb1", "T2");
    let z = ident("B", "Alb2", "T3");
    store.commit(&x, d1);
    store.commit(&x, d1);
    store.commit(&x, d2);
    store.commit(&y, d1);
    store.commit(&z, d2);
    store.commit(&z, d2);
    store
}

#[test]
fn ungrouped_view_totals_and_order() {
    let store = fixture();
    let rows = get_data_vec_none(&store);
    assert_eq!(rows.len(), 3);
    assert_eq!(rows[0].title(), "T1");
    assert_eq!(rows[0].plays(), 3);
    assert_eq!(rows[0].plays_string(), "3");
    assert_eq!(rows[1].title(), "T3");
    assert_eq!(rows[1].plays(), 2);
    assert_eq!(rows[2].title(), "T2");
    assert_eq!(rows[2].plays(), 1);
    assert_eq!(rows[0].ref_array(), ["A", "Alb1", "T1", "3"]);
}

#[test]
fn by_date_view_totals_and_order() {
    let store = fixture();
    let rows = get_data_vec_date(&store);
    assert_eq!(rows.len(), 2);
    // both dates count three plays; the stable ranking keeps the first date
    // seen in the log ahead
    assert_eq!(rows[0].date, date(2024, 5, 7));
    assert_eq!(rows[0].plays, 3);
    assert_eq!(rows[1].date, date(2024, 5, 8));
    assert_eq!(rows[1].plays, 3);
}

#[test]
fn by_artist_view_totals_and_frequencies() {
    let store = fixture();
    let rows = get_data_vec_artist(&store);
    assert_eq!(rows.len(), 2);
    assert_eq!(rows[0].artist, "A");
    assert_eq!(rows[0].plays, 4);
    assert_eq!(rows[0].freq, 2);
    assert_eq!(rows[1].artist, "B");
    assert_eq!(rows[1].plays, 2);
    assert_eq!(rows[1].freq, 1);
}

#[test]
fn by_album_view_totals_and_frequencies() {
    let store = fixture();
    let rows = get_data_vec_album(&store);
    assert_eq!(rows.len(), 2);
    assert_eq!(rows[0].album, "Alb1");
    assert_eq!(rows[0].plays, 4);
    assert_eq!(rows[0].freq, 2);
    assert_eq!(rows[1].album, "Alb2");
    assert_eq!(rows[1].plays, 2);
    assert_eq!(rows[1].freq, 1);
}

#[test]
fn frequencies_list_every_key_once() {
    let store = fixture();
    let af = get_artist_frequency(&store);
    assert_eq!(af.len(), 2);
    assert_eq!(af[0], ("A".to_string(), 2));
    assert_eq!(af[1], ("B".to_string(), 1));
    let bf = get_album_frequency(&store);
    assert_eq!(bf.len(), 2);
    assert_eq!(bf[0], ("Alb1".to_string(), 2));
    assert_eq!(bf[1], ("Alb2".to_string(), 1));
}

#[test]
fn weighted_shares_sum_to_one_by_artist() {
    let store = fixture();
    let rows = get_data_vec_artist(&store);
    // weight(A) = 4/2 = 2, weight(B) = 2/1 = 2: equal shares
    let total: f64 = rows.iter().map(|r| r.plays as f64 / r.freq as f64).sum();
    let shares: Vec<f64> = rows
        .iter()
        .map(|r| (r.plays as f64 / r.freq as f64) / total)
        .collect();
    assert!((shares[0] - 0.5).abs() < 1e-6);
    assert!((shares[1] - 0.5).abs() < 1e-6);
    assert!((shares.iter().sum::<f64>() - 1.0).abs() < 1e-6);
}

#[test]
fn weighted_shares_sum_to_one_on_a_large_view() {
    let mut store = Store::new();
    let d = date(2024, 5, 7);
    for a in 0..17u32 {
        for s in 0..=(a % 5) {
            let song = ident(&format!("artist{a}"), &format!("alb{a}"), &format!("t{s}"));
            for _ in 0..=(s * 3 + a) {
                store.commit(&song, d);
            }
        }
    }
    for rows in [get_data_vec_artist(&store)] {
        let total: f64 = rows.iter().map(|r| r.plays as f64 / r.freq as f64).sum();
        let sum: f64 = rows
            .iter()
            .map(|r| (r.plays as f64 / r.freq as f64) / total)
            .sum();
        assert!((sum - 1.0).abs() < 1e-6);
    }
    let rows = get_data_vec_album(&store);
    let total: f64 = rows.iter().map(|r| r.plays as f64 / r.freq as f64).sum();
    let sum: f64 = rows
        .iter()
        .map(|r| (r.plays as f64 / r.freq as f64) / total)
        .sum();
    assert!((sum - 1.0).abs() < 1e-6);
}

#[test]
fn songs_without_plays_stay_out_of_views() {
    let mut store = Store::new();
    assert!(store.add_catalog_row(1, ident("A", "Alb", "T")));
    assert!(get_data_vec_none(&store).is_empty());
    assert!(get_data_vec_date(&store).is_empty());
    assert!(get_data_vec_artist(&store).is_empty());
    assert!(get_data_vec_album(&store).is_empty());
    // the catalog still counts for the frequencies
    assert_eq!(get_artist_frequency(&store), vec![("A".to_string(), 1)]);
}

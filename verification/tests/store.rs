use mpressed::date::Date;
use mpressed::song::{join_artists, SongData};
use mpressed::store::Store;

fn ident(artist: &str, album: &str, title: &str) -> SongData {
    SongData::new(artist.to_string(), album.to_string(), title.to_string())
}

fn date(y: u32, m: u32, d: u32) -> Date {
    Date::new(y, m, d).unwrap()
}

#[test]
fn performers_join_with_the_fixed_separator() {
    assert_eq!(join_artists(&vec![]), "");
    assert_eq!(join_artists(&vec!["Solo".to_string()]), "Solo");
    assert_eq!(
        join_artists(&vec!["A".to_string(), "B".to_string(), "C".to_string()]),
        "A / B / C"
    );
}

#[test]
fn invalid_identities_are_recognized() {
    assert!(ident("A", "B", "C").is_valid());
    assert!(!ident("", "B", "C").is_valid());
    assert!(!ident("A", "", "C").is_valid());
    assert!(!ident("A", "B", "").is_valid());
    assert!(!SongData::default().is_valid());
    assert_eq!(ident("A", "B", "C"), ident("A", "B", "C"));
    assert_ne!(ident("A", "B", "C"), ident("A", "B", "c"));
}

#[test]
fn commit_two_dates_idempotent_catalog() {
    let mut store = Store::new();
    let x = ident("A", "Alb", "T");
    let d1 = date(2024, 5, 7);
    let d2 = date(2024, 5, 8);
    store.commit(&x, d1);
    store.commit(&x, d2);
    assert_eq!(store.song_count(), 1);
    assert_eq!(store.play_row_count(), 2);
    assert_eq!(store.lookup_plays(&x, &d1), Some(1));
    assert_eq!(store.lookup_plays(&x, &d2), Some(1));
}

#[test]
fn commit_same_date_accumulates() {
    let mut store = Store::new();
    let x = ident("A", "Alb", "T");
    let d = date(2024, 5, 7);
    for _ in 0..5 {
        store.commit(&x, d);
    }
    assert_eq!(store.song_count(), 1);
    assert_eq!(store.play_row_count(), 1);
    assert_eq!(store.lookup_plays(&x, &d), Some(5));
    assert_eq!(store.total, 5);
}

#[test]
fn commit_distinct_identities_get_distinct_rows() {
    let mut store = Store::new();
    let x = ident("A", "Alb", "T1");
    let y = ident("A", "Alb", "T2");
    let d = date(2024, 5, 7);
    store.commit(&x, d);
    store.commit(&y, d);
    store.commit(&y, d);
    assert_eq!(store.song_count(), 2);
    assert_eq!(store.play_row_count(), 2);
    assert_eq!(store.lookup_plays(&x, &d), Some(1));
    assert_eq!(store.lookup_plays(&y, &d), Some(2));
}

#[test]
fn lookup_missing_is_none() {
    let mut store = Store::new();
    let x = ident("A", "Alb", "T");
    let d1 = date(2024, 5, 7);
    let d2 = date(2024, 5, 8);
    assert_eq!(store.lookup_plays(&x, &d1), None);
    store.commit(&x, d1);
    assert_eq!(store.lookup_plays(&x, &d2), None);
    assert_eq!(store.lookup_plays(&ident("B", "Alb", "T"), &d1), None);
}

#[test]
fn add_catalog_row_accepts_fresh_rows_only() {
    let mut store = Store::new();
    assert!(store.add_catalog_row(10, ident("A", "Alb", "T1")));
    // duplicate id
    assert!(!store.add_catalog_row(10, ident("B", "Alb", "T2")));
    // duplicate identity
    assert!(!store.add_catalog_row(11, ident("A", "Alb", "T1")));
    // invalid identity
    assert!(!store.add_catalog_row(12, ident("", "Alb", "T3")));
    assert!(store.add_catalog_row(11, ident("B", "Alb", "T2")));
    assert_eq!(store.song_count(), 2);
}

#[test]
fn add_play_row_accepts_consistent_rows_only() {
    let mut store = Store::new();
    assert!(store.add_catalog_row(1, ident("A", "Alb", "T")));
    let d = date(2024, 5, 7);
    // zero plays
    assert!(!store.add_play_row(1, d, 0));
    // unknown song
    assert!(!store.add_play_row(2, d, 1));
    // malformed date
    assert!(!store.add_play_row(1, Date { year: 2024, month: 13, day: 1 }, 1));
    assert!(store.add_play_row(1, d, 3));
    // second row for the same (song, date)
    assert!(!store.add_play_row(1, d, 1));
    assert_eq!(store.play_row_count(), 1);
    assert_eq!(store.lookup_plays(&ident("A", "Alb", "T"), &d), Some(3));
    // a loaded store keeps counting through commits
    store.commit(&ident("A", "Alb", "T"), d);
    assert_eq!(store.lookup_plays(&ident("A", "Alb", "T"), &d), Some(4));
}

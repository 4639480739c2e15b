use mpressed::date::Date;
use mpressed::song::SongData;
use mpressed::store::Store;
use mpressed::tracker::{PlaybackStatus, Sample, Tracker};
use mpressed::MIN_PLAYTIME_MS;

fn ident(artist: &str, album: &str, title: &str) -> SongData {
    SongData::new(artist.to_string(), album.to_string(), title.to_string())
}

fn date(y: u32, m: u32, d: u32) -> Date {
    Date::new(y, m, d).unwrap()
}

fn sample(data: &SongData, status: PlaybackStatus, now_ms: u64, d: Date) -> Sample {
    Sample { data: data.clone(), status, now_ms, date: d }
}

#[test]
fn commit_once_at_tick_sixty() {
    // threshold 60000 ms, one tick every 1000 ms, one track playing
    // continuously for 65 ticks: exactly one commit, at tick 60
    let mut tracker = Tracker::new(MIN_PLAYTIME_MS, 0);
    let mut store = Store::new();
    let x = ident("A", "Alb", "X");
    let d = date(2024, 5, 7);
    // the session starts when the track is first observed
    assert!(!tracker.observe(&mut store, &sample(&x, PlaybackStatus::Playing, 0, d)));
    let mut commits: Vec<u64> = Vec::new();
    for tick in 1..=65u64 {
        if tracker.observe(&mut store, &sample(&x, PlaybackStatus::Playing, tick * 1000, d)) {
            commits.push(tick);
        }
    }
    assert_eq!(commits, vec![60]);
    assert_eq!(store.song_count(), 1);
    assert_eq!(store.play_row_count(), 1);
    assert_eq!(store.lookup_plays(&x, &d), Some(1));
}

#[test]
fn no_partial_credit_across_track_change() {
    // 30 ticks of one track, then a switch: no commit for either, even though
    // the summed playtime passes the threshold
    let mut tracker = Tracker::new(MIN_PLAYTIME_MS, 0);
    let mut store = Store::new();
    let x = ident("A", "Alb", "X");
    let y = ident("A", "Alb", "Y");
    let d = date(2024, 5, 7);
    let mut t: u64 = 0;
    assert!(!tracker.observe(&mut store, &sample(&x, PlaybackStatus::Playing, t, d)));
    for _ in 0..30 {
        t += 1000;
        assert!(!tracker.observe(&mut store, &sample(&x, PlaybackStatus::Playing, t, d)));
    }
    for _ in 0..40 {
        t += 1000;
        assert!(!tracker.observe(&mut store, &sample(&y, PlaybackStatus::Playing, t, d)));
    }
    assert_eq!(store.song_count(), 0);
    assert_eq!(store.play_row_count(), 0);
    assert_eq!(store.lookup_plays(&x, &d), None);
}

#[test]
fn abandoned_occurrence_keeps_old_catalog_row() {
    // a track committed on an earlier occurrence keeps its catalog row, but
    // an occurrence abandoned before the threshold adds no play
    let mut tracker = Tracker::new(MIN_PLAYTIME_MS, 0);
    let mut store = Store::new();
    let x = ident("A", "Alb", "X");
    let y = ident("A", "Alb", "Y");
    let d = date(2024, 5, 7);
    let mut t: u64 = 0;
    tracker.observe(&mut store, &sample(&x, PlaybackStatus::Playing, t, d));
    for _ in 0..65 {
        t += 1000;
        tracker.observe(&mut store, &sample(&x, PlaybackStatus::Playing, t, d));
    }
    assert_eq!(store.lookup_plays(&x, &d), Some(1));
    // switch to another track, then back for only 30 ticks
    for _ in 0..10 {
        t += 1000;
        tracker.observe(&mut store, &sample(&y, PlaybackStatus::Playing, t, d));
    }
    for _ in 0..30 {
        t += 1000;
        tracker.observe(&mut store, &sample(&x, PlaybackStatus::Playing, t, d));
    }
    // the catalog row from the first occurrence survives; no second play
    assert_eq!(store.song_count(), 1);
    assert_eq!(store.lookup_plays(&x, &d), Some(1));
}

#[test]
fn paused_time_does_not_accrue() {
    let mut tracker = Tracker::new(MIN_PLAYTIME_MS, 0);
    let mut store = Store::new();
    let x = ident("A", "Alb", "X");
    let d = date(2024, 5, 7);
    let mut t: u64 = 0;
    tracker.observe(&mut store, &sample(&x, PlaybackStatus::Playing, t, d));
    // 30 s playing
    for _ in 0..30 {
        t += 1000;
        assert!(!tracker.observe(&mut store, &sample(&x, PlaybackStatus::Playing, t, d)));
    }
    // a long pause adds nothing
    for _ in 0..100 {
        t += 1000;
        assert!(!tracker.observe(&mut store, &sample(&x, PlaybackStatus::Paused, t, d)));
    }
    // 29 s more playing: still under the threshold
    for _ in 0..29 {
        t += 1000;
        assert!(!tracker.observe(&mut store, &sample(&x, PlaybackStatus::Playing, t, d)));
    }
    // the 60th playing second crosses it
    t += 1000;
    assert!(tracker.observe(&mut store, &sample(&x, PlaybackStatus::Playing, t, d)));
    assert_eq!(store.lookup_plays(&x, &d), Some(1));
}

#[test]
fn invalid_identity_is_ignored() {
    let mut tracker = Tracker::new(MIN_PLAYTIME_MS, 0);
    let mut store = Store::new();
    let x = ident("A", "Alb", "X");
    let missing = ident("", "", "");
    let d = date(2024, 5, 7);
    let mut t: u64 = 0;
    tracker.observe(&mut store, &sample(&x, PlaybackStatus::Playing, t, d));
    for _ in 0..30 {
        t += 1000;
        tracker.observe(&mut store, &sample(&x, PlaybackStatus::Playing, t, d));
    }
    // samples without metadata freeze the session without abandoning it
    for _ in 0..20 {
        t += 1000;
        assert!(!tracker.observe(&mut store, &sample(&missing, PlaybackStatus::Playing, t, d)));
    }
    // the session resumes: 30 more seconds reach the threshold
    for _ in 0..29 {
        t += 1000;
        assert!(!tracker.observe(&mut store, &sample(&x, PlaybackStatus::Playing, t, d)));
    }
    t += 1000;
    assert!(tracker.observe(&mut store, &sample(&x, PlaybackStatus::Playing, t, d)));
    assert_eq!(store.lookup_plays(&x, &d), Some(1));
}

#[test]
fn session_date_is_the_session_start_date() {
    // a session that straddles midnight credits the day it started
    let mut tracker = Tracker::new(MIN_PLAYTIME_MS, 0);
    let mut store = Store::new();
    let x = ident("A", "Alb", "X");
    let d1 = date(2024, 5, 7);
    let d2 = date(2024, 5, 8);
    let mut t: u64 = 0;
    tracker.observe(&mut store, &sample(&x, PlaybackStatus::Playing, t, d1));
    for _ in 0..65 {
        t += 1000;
        // the calendar day changes mid-session; the commit still lands on d1
        tracker.observe(&mut store, &sample(&x, PlaybackStatus::Playing, t, d2));
    }
    assert_eq!(store.lookup_plays(&x, &d1), Some(1));
    assert_eq!(store.lookup_plays(&x, &d2), None);
}

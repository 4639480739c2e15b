use mpressed::aggregate::{
    get_data_vec_album, get_data_vec_artist, get_data_vec_date, get_data_vec_none,
};
use mpressed::date::Date;
use mpressed::song::SongData;
use mpressed::store::Store;
use mpressed::viewmodel::{apply_filter, FilterSet, Group, SelectedTab, TuiState};
use mpressed::views::SongDataNone;

fn ident(artist: &str, album: &str, title: &str) -> SongData {
    SongData::new(artist.to_string(), album.to_string(), title.to_string())
}

fn date(y: u32, m: u32, d: u32) -> Date {
    Date::new(y, m, d).unwrap()
}

fn fixture_store() -> Store {
    let mut store = Store::new();
    let d1 = date(2024, 5, 7);
    let d2 = date(2024, 5, 8);
    store.commit(&ident("A", "Alb1", "T1"), d1);
    store.commit(&ident("A", "Alb1", "T2"), d1);
    store.commit(&ident("B", "Alb2", "T3"), d2);
    store
}

fn fixture_state(store: &Store) -> TuiState {
    TuiState::new(
        get_data_vec_none(store),
        get_data_vec_date(store),
        get_data_vec_artist(store),
        get_data_vec_album(store),
    )
}

#[test]
fn grouping_clamps_at_both_ends() {
    let mut g = Group::default();
    assert_eq!(g, Group::Ungrouped);
    g.next();
    assert_eq!(g, Group::Date);
    g.next();
    assert_eq!(g, Group::Artist);
    g.next();
    assert_eq!(g, Group::Album);
    g.next();
    assert_eq!(g, Group::Album);
    g.prev();
    assert_eq!(g, Group::Artist);
    g.prev();
    g.prev();
    assert_eq!(g, Group::Ungrouped);
    g.prev();
    assert_eq!(g, Group::Ungrouped);
}

#[test]
fn tab_focus_cycles() {
    let mut t = SelectedTab::default();
    assert_eq!(t, SelectedTab::Table);
    t.next();
    assert_eq!(t, SelectedTab::Group);
    t.next();
    assert_eq!(t, SelectedTab::Sort);
    t.next();
    assert_eq!(t, SelectedTab::Table);
    t.prev();
    assert_eq!(t, SelectedTab::Sort);
    t.prev();
    assert_eq!(t, SelectedTab::Group);
    t.prev();
    assert_eq!(t, SelectedTab::Table);
}

#[test]
fn table_cursor_stays_in_range() {
    let store = fixture_store();
    let mut state = fixture_state(&store);
    assert_eq!(state.table_index, 0);
    state.table_up();
    assert_eq!(state.table_index, 0);
    // three ungrouped rows
    state.table_down();
    state.table_down();
    assert_eq!(state.table_index, 2);
    state.table_down();
    assert_eq!(state.table_index, 2);
    state.table_start();
    assert_eq!(state.table_index, 0);
    state.table_end();
    assert_eq!(state.table_index, 2);
}

#[test]
fn group_change_resets_selection_and_scroll() {
    let store = fixture_store();
    let mut state = fixture_state(&store);
    assert_eq!(state.scroll_len, 3);
    state.table_down();
    state.table_down();
    state.group_next();
    assert_eq!(state.group, Group::Date);
    assert_eq!(state.group_index, 1);
    assert_eq!(state.table_index, 0);
    // two dates
    assert_eq!(state.scroll_len, 2);
    state.table_end();
    assert_eq!(state.table_index, 1);
    state.group_prev();
    assert_eq!(state.group, Group::Ungrouped);
    assert_eq!(state.table_index, 0);
    assert_eq!(state.scroll_len, 3);
}

#[test]
fn update_data_refreshes_the_active_view() {
    let mut store = fixture_store();
    let mut state = fixture_state(&store);
    assert_eq!(state.data_vec_none.len(), 3);
    store.commit(&ident("C", "Alb3", "T4"), date(2024, 5, 9));
    state.table_down();
    state.update_data(&store);
    assert_eq!(state.data_vec_none.len(), 4);
    assert_eq!(state.table_index, 0);
    assert_eq!(state.scroll_len, 4);
    // only the active view was rebuilt
    assert_eq!(state.data_vec_date.len(), 2);
    state.group_next();
    state.update_data(&store);
    assert_eq!(state.data_vec_date.len(), 3);
}

#[test]
fn weighted_toggle_reranks_by_exact_weight() {
    let mut store = Store::new();
    let d = date(2024, 5, 7);
    // artist A: 6 plays over 3 songs (weight 2); artist B: 4 plays over 1
    // song (weight 4): plain ranking puts A first, weighted puts B first
    for (t, n) in [("T1", 2), ("T2", 2), ("T3", 2)] {
        for _ in 0..n {
            store.commit(&ident("A", "Alb1", t), d);
        }
    }
    for _ in 0..4 {
        store.commit(&ident("B", "Alb2", "T4"), d);
    }
    let mut state = fixture_state(&store);
    assert_eq!(state.data_vec_artist[0].artist, "A");
    state.toggle_weighted();
    assert!(state.weighted);
    assert_eq!(state.data_vec_artist[0].artist, "B");
    assert_eq!(state.data_vec_artist[1].artist, "A");
    state.toggle_weighted();
    assert!(!state.weighted);
    assert_eq!(state.data_vec_artist[0].artist, "A");
}

#[test]
fn filter_defaults_to_included() {
    let f = FilterSet::new();
    assert!(f.included(&"anyone".to_string()));
}

#[test]
fn filter_hides_excluded_artists_only() {
    let mut f = FilterSet::new();
    f.set("A".to_string(), false);
    assert!(!f.included(&"A".to_string()));
    assert!(f.included(&"B".to_string()));
    let rows = vec![
        SongDataNone::new("A".to_string(), "X".to_string(), "t1".to_string(), 1),
        SongDataNone::new("B".to_string(), "Y".to_string(), "t2".to_string(), 2),
        SongDataNone::new("A".to_string(), "Z".to_string(), "t3".to_string(), 3),
    ];
    let kept = apply_filter(rows, &f);
    assert_eq!(kept.len(), 1);
    assert_eq!(kept[0].artist(), "B");
    // the latest recorded flag wins
    f.set("A".to_string(), true);
    assert!(f.included(&"A".to_string()));
}

#[test]
fn exit_flag_is_set_once_asked() {
    let store = fixture_store();
    let mut state = fixture_state(&store);
    assert!(!state.exit);
    state.exit();
    assert!(state.exit);
}

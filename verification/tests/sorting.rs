use std::cmp::Ordering;

use mpressed::order::{str_le, Sort, SortDirection};
use mpressed::viewmodel::TuiState;
use mpressed::views::SongDataNone;

fn row(artist: &str, album: &str, title: &str, plays: u32) -> SongDataNone {
    SongDataNone::new(artist.to_string(), album.to_string(), title.to_string(), plays)
}

fn fixture_rows() -> Vec<SongDataNone> {
    vec![
        row("B", "Y", "t3", 2),
        row("A", "X", "t1", 2),
        row("B", "X", "t2", 5),
        row("A", "Y", "t5", 2),
        row("A", "X", "t4", 5),
        row("C", "Z", "t6", 1),
        row("A", "X", "t1", 3),
        row("B", "Z", "t2", 2),
    ]
}

fn field_cmp(f: Sort, a: &SongDataNone, b: &SongDataNone) -> Ordering {
    match f {
        Sort::Artist => a.artist().cmp(b.artist()),
        Sort::Album => a.album().cmp(b.album()),
        Sort::Title => a.title().cmp(b.title()),
        Sort::Plays => a.plays().cmp(&b.plays()),
    }
}

fn entry_cmp(e: &SortDirection, a: &SongDataNone, b: &SongDataNone) -> Ordering {
    let ord = field_cmp(e.0, a, b);
    if e.1 {
        ord.reverse()
    } else {
        ord
    }
}

#[test]
fn sequential_stable_sort_matches_reversed_compound_comparator() {
    // priority list [A, B, C, D] front to back: the sequential stable passes
    // must equal one compound sort ordered by (D, C, B, A)
    let rows = fixture_rows();
    let mut state = TuiState::new(rows, Vec::new(), Vec::new(), Vec::new());
    // the default list: [Title, Album, Artist, Plays desc]
    let prio = state.sort_priority.clone();
    assert_eq!(prio.len(), 4);
    state.data_sort();

    let mut expected = fixture_rows();
    expected.sort_by(|a, b| {
        entry_cmp(&prio[3], a, b)
            .then(entry_cmp(&prio[2], a, b))
            .then(entry_cmp(&prio[1], a, b))
            .then(entry_cmp(&prio[0], a, b))
    });
    assert_eq!(state.data_vec_none.len(), expected.len());
    for (got, want) in state.data_vec_none.iter().zip(expected.iter()) {
        assert_eq!(got.ref_array(), want.ref_array());
    }
}

#[test]
fn sequential_stable_sort_matches_compound_after_reorder() {
    // promoting Artist to the dominant position must match the compound
    // comparator for the new list as well
    let rows = fixture_rows();
    let mut state = TuiState::new(rows, Vec::new(), Vec::new(), Vec::new());
    // the panel shows the list reversed; entry "Artist" sits at panel row 1
    state.sort_index = 1;
    state.sort_select();
    let prio = state.sort_priority.clone();
    assert_eq!(prio[3].0, Sort::Artist);

    let mut expected = fixture_rows();
    expected.sort_by(|a, b| {
        entry_cmp(&prio[3], a, b)
            .then(entry_cmp(&prio[2], a, b))
            .then(entry_cmp(&prio[1], a, b))
            .then(entry_cmp(&prio[0], a, b))
    });
    for (got, want) in state.data_vec_none.iter().zip(expected.iter()) {
        assert_eq!(got.ref_array(), want.ref_array());
    }
}

#[test]
fn sort_select_promotes_the_selected_entry() {
    let mut state = TuiState::new(Vec::new(), Vec::new(), Vec::new(), Vec::new());
    // panel row 0 is the dominant (last) entry: selecting it keeps the order
    state.sort_select();
    let fields: Vec<Sort> = state.sort_priority.iter().map(|e| e.0).collect();
    assert_eq!(fields, vec![Sort::Title, Sort::Album, Sort::Artist, Sort::Plays]);
    // panel row 3 is the weakest (first) entry: selecting it makes it dominant
    state.sort_index = 3;
    state.sort_select();
    let fields: Vec<Sort> = state.sort_priority.iter().map(|e| e.0).collect();
    assert_eq!(fields, vec![Sort::Album, Sort::Artist, Sort::Plays, Sort::Title]);
}

#[test]
fn sort_equivalence_holds_under_every_promotion() {
    // a tie-heavy fixture: every field has duplicates
    let rows = vec![
        row("A", "X", "t", 1),
        row("A", "X", "t", 1),
        row("B", "X", "t", 1),
        row("A", "Y", "t", 2),
        row("B", "Y", "u", 2),
        row("A", "X", "u", 2),
        row("B", "Y", "t", 1),
        row("A", "Y", "u", 1),
    ];
    let mut state = TuiState::new(rows.clone(), Vec::new(), Vec::new(), Vec::new());
    for panel_row in [0usize, 1, 2, 3, 2, 0] {
        state.sort_index = panel_row;
        state.sort_select();
        let prio = state.sort_priority.clone();
        let mut expected = rows.clone();
        expected.sort_by(|a, b| {
            entry_cmp(&prio[3], a, b)
                .then(entry_cmp(&prio[2], a, b))
                .then(entry_cmp(&prio[1], a, b))
                .then(entry_cmp(&prio[0], a, b))
        });
        for (got, want) in state.data_vec_none.iter().zip(expected.iter()) {
            assert_eq!(got.ref_array(), want.ref_array());
        }
    }
}

#[test]
fn sort_reverse_flips_the_selected_entry_and_resorts() {
    let rows = fixture_rows();
    let mut state = TuiState::new(rows, Vec::new(), Vec::new(), Vec::new());
    // panel row 0 is the dominant entry, plays descending; reverse it
    state.sort_reverse();
    let prio = state.sort_priority.clone();
    assert_eq!(prio[3], SortDirection(Sort::Plays, false));

    let mut expected = fixture_rows();
    expected.sort_by(|a, b| {
        entry_cmp(&prio[3], a, b)
            .then(entry_cmp(&prio[2], a, b))
            .then(entry_cmp(&prio[1], a, b))
            .then(entry_cmp(&prio[0], a, b))
    });
    for (got, want) in state.data_vec_none.iter().zip(expected.iter()) {
        assert_eq!(got.ref_array(), want.ref_array());
    }
    // the least-played row now leads
    assert_eq!(state.data_vec_none[0].plays(), 1);
}

#[test]
fn string_order_is_lexicographic() {
    assert!(str_le("abc", "abd"));
    assert!(!str_le("abd", "abc"));
    assert!(str_le("ab", "abc"));
    assert!(!str_le("abc", "ab"));
    assert!(str_le("", "a"));
    assert!(str_le("", ""));
    assert!(str_le("same", "same"));
    assert!(str_le("Band", "band"));
}

#[test]
fn sort_field_names() {
    assert_eq!(Sort::Artist.name(), "Artist");
    assert_eq!(Sort::Album.name(), "Album");
    assert_eq!(Sort::Title.name(), "Title");
    assert_eq!(Sort::Plays.name(), "Plays");
}

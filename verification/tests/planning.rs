use crawl_core::batch::{chunk_records, consistency_from_name, first_error, Consistency, WriteError};
use crawl_core::fetch::{
    absorb_page, albums_needing_more_tracks, collect_group_results, plan_album_groups,
    remaining_track_offsets, AlbumInfo, FetchError, Page,
};
use crawl_core::types::{
    artist_id_list, normalize_albums, normalize_multi_credit_tracks, unique_artists, Album,
    Artist, NormalizedTrack, Track,
};

fn track(id: &str, name: &str, artists: &[(&str, &str)]) -> Track {
    Track {
        id: id.to_string(),
        name: name.to_string(),
        preview_url: None,
        artists: artists
            .iter()
            .map(|(aid, aname)| Artist { id: aid.to_string(), name: aname.to_string() })
            .collect(),
    }
}

#[test]
fn chunking_partitions_records_exactly_once() {
    let values: Vec<u64> = (0..7).collect();
    let chunks = chunk_records(values.clone(), 3);
    assert_eq!(chunks.len(), 3);
    assert_eq!(chunks[0], vec![0, 1, 2]);
    assert_eq!(chunks[1], vec![3, 4, 5]);
    assert_eq!(chunks[2], vec![6]);
    let flat: Vec<u64> = chunks.into_iter().flatten().collect();
    assert_eq!(flat, values);
}

#[test]
fn chunking_empty_input_issues_no_writes() {
    let chunks = chunk_records(Vec::<u64>::new(), 700);
    assert!(chunks.is_empty());
}

#[test]
fn chunking_exact_multiple_fills_every_chunk() {
    let values: Vec<u64> = (0..6).collect();
    let chunks = chunk_records(values, 3);
    assert_eq!(chunks.len(), 2);
    assert_eq!(chunks[0].len(), 3);
    assert_eq!(chunks[1].len(), 3);
}

#[test]
fn consistency_names_parse_with_fallback() {
    assert_eq!(consistency_from_name(&"quorum".to_string()), Consistency::Quorum);
    assert_eq!(consistency_from_name(&"local_one".to_string()), Consistency::LocalOne);
    assert_eq!(consistency_from_name(&"any".to_string()), Consistency::Any);
    assert_eq!(consistency_from_name(&"garbage".to_string()), Consistency::Any);
}

#[test]
fn first_error_returns_all_results_on_success() {
    let results: Vec<Result<u32, WriteError>> = vec![Ok(1), Ok(2), Ok(3)];
    assert_eq!(first_error(results).unwrap(), vec![1, 2, 3]);
}

#[test]
fn first_error_reports_the_earliest_failure() {
    let results: Vec<Result<u32, WriteError>> = vec![
        Ok(1),
        Err(WriteError { message: "first".to_string() }),
        Err(WriteError { message: "second".to_string() }),
    ];
    assert_eq!(first_error(results).unwrap_err().message, "first");
}

#[test]
fn album_groups_hold_at_most_twenty_ids() {
    let ids: Vec<String> = (0..45).map(|i| format!("album-{}", i)).collect();
    let groups = plan_album_groups(ids.clone());
    assert_eq!(groups.len(), 3);
    assert_eq!(groups[0].len(), 20);
    assert_eq!(groups[1].len(), 20);
    assert_eq!(groups[2].len(), 5);
    let flat: Vec<String> = groups.into_iter().flatten().collect();
    assert_eq!(flat, ids);
}

#[test]
fn only_oversized_albums_need_a_second_phase() {
    let albums = vec![
        AlbumInfo { id: "a".to_string(), total_tracks: 5 },
        AlbumInfo { id: "b".to_string(), total_tracks: 21 },
        AlbumInfo { id: "c".to_string(), total_tracks: 20 },
        AlbumInfo { id: "d".to_string(), total_tracks: 100 },
    ];
    let more = albums_needing_more_tracks(&albums);
    let ids: Vec<&str> = more.iter().map(|a| a.id.as_str()).collect();
    assert_eq!(ids, vec!["b", "d"]);
}

#[test]
fn offsets_cover_the_remainder_page_by_page() {
    assert_eq!(remaining_track_offsets(20), Vec::<usize>::new());
    assert_eq!(remaining_track_offsets(21), vec![20]);
    assert_eq!(remaining_track_offsets(70), vec![20]);
    assert_eq!(remaining_track_offsets(73), vec![20, 70]);
    assert_eq!(remaining_track_offsets(120), vec![20, 70]);
    assert_eq!(remaining_track_offsets(121), vec![20, 70, 120]);
}

#[test]
fn a_failed_group_drops_only_its_own_items() {
    let results: Vec<Result<Vec<u32>, FetchError>> = vec![
        Ok(vec![1, 2]),
        Err(FetchError { message: "connection reset".to_string() }),
        Ok(vec![3]),
    ];
    assert_eq!(collect_group_results(results), vec![1, 2, 3]);
}

#[test]
fn pages_accumulate_until_the_cursor_runs_out() {
    let mut acc: Vec<u32> = Vec::new();
    let next = absorb_page(
        &mut acc,
        Page { items: vec![1, 2], next: Some("page-2".to_string()) },
    );
    assert_eq!(next.as_deref(), Some("page-2"));
    let next = absorb_page(&mut acc, Page { items: vec![3], next: None });
    assert!(next.is_none());
    assert_eq!(acc, vec![1, 2, 3]);
}

#[test]
fn normalization_flattens_albums_tracks_and_artists() {
    let album = Album {
        id: "alb1".to_string(),
        name: "First".to_string(),
        release_date: "2001-01-01".to_string(),
        album_type: "album".to_string(),
        images: Vec::new(),
        tracks: vec![
            track("t1", "One", &[("x", "X"), ("y", "Y")]),
            track("t2", "Two", &[("x", "X")]),
        ],
    };
    let (albums, tracks, artists) = normalize_albums(vec![album]);
    assert_eq!(albums.len(), 1);
    assert_eq!(albums[0].id, "alb1");
    assert_eq!(albums[0].tracks, vec!["t1".to_string(), "t2".to_string()]);
    assert_eq!(tracks.len(), 2);
    assert_eq!(tracks[0].artists, vec!["x".to_string(), "y".to_string()]);
    assert_eq!(tracks[1].artists, vec!["x".to_string()]);
    let names: Vec<(&str, &str)> =
        artists.iter().map(|a| (a.id.as_str(), a.name.as_str())).collect();
    assert_eq!(names, vec![("x", "X"), ("y", "Y")]);
}

#[test]
fn duplicate_artist_ids_keep_their_first_name() {
    let album = Album {
        id: "alb1".to_string(),
        name: "First".to_string(),
        release_date: "2001-01-01".to_string(),
        album_type: "album".to_string(),
        images: Vec::new(),
        tracks: vec![
            track("t1", "One", &[("x", "X proper")]),
            track("t2", "Two", &[("x", "X alias"), ("y", "Y")]),
        ],
    };
    let (_, _, artists) = normalize_albums(vec![album]);
    let names: Vec<(&str, &str)> =
        artists.iter().map(|a| (a.id.as_str(), a.name.as_str())).collect();
    assert_eq!(names, vec![("x", "X proper"), ("y", "Y")]);
}

#[test]
fn single_credit_tracks_are_dropped_from_normalization() {
    let tracks = vec![
        track("t1", "Solo", &[("x", "X")]),
        track("t2", "Duet", &[("x", "X"), ("y", "Y")]),
    ];
    let normalized: Vec<NormalizedTrack> = normalize_multi_credit_tracks(&tracks);
    assert_eq!(normalized.len(), 1);
    assert_eq!(normalized[0].id, "t2");
    assert_eq!(normalized[0].artists, vec!["x".to_string(), "y".to_string()]);
}

#[test]
fn unique_artists_dedup_whole_values_keeping_first() {
    let tracks = vec![
        track("t1", "One", &[("x", "X"), ("y", "Y")]),
        track("t2", "Two", &[("x", "X"), ("x", "X other name")]),
    ];
    let us = unique_artists(&tracks);
    let names: Vec<(&str, &str)> = us.iter().map(|a| (a.id.as_str(), a.name.as_str())).collect();
    assert_eq!(names, vec![("x", "X"), ("y", "Y"), ("x", "X other name")]);
    let ids = artist_id_list(&us);
    assert_eq!(ids, vec!["x".to_string(), "y".to_string(), "x".to_string()]);
}

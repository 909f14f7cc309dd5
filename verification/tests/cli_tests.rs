use aetherium::cli::commands::cluster::{
    cluster_model_table, cluster_stat_contents, cluster_stats_configs, clustering_event_line,
    clusters_found_line, clusters_found_table, dims_reduced_line, i64_to_string, ClusterStat,
};
use aetherium::cli::commands::codex::{
    added_file_line, adding_file_line, deleted_file_line, sync_event_lines, EngineEvent, SyncProgress,
};
use aetherium::cli::commands::config::{
    changed_config_line, config_request, got_config_line, set_failure_message, ConfigCmd, ConfigRequest,
};
use aetherium::cli::commands::create::{codex_folder_name, created_message};
use aetherium::cli::commands::search::{search_contents, SearchHit, SearchMode};
use aetherium::views::content_viewer::{ContentTable, MetaDataCell, Render};

#[test]
fn config_command_requests() {
    let get = ConfigCmd { get: Some("dims".into()), set: None };
    assert!(matches!(config_request(&get), Ok(ConfigRequest::Read { key }) if key == "dims"));
    let set = ConfigCmd { get: None, set: Some(vec!["dims".into(), "768".into()]) };
    assert!(matches!(config_request(&set), Ok(ConfigRequest::Change { key, val }) if key == "dims" && val == "768"));
    let both = ConfigCmd { get: Some("a".into()), set: Some(vec!["a".into(), "b".into()]) };
    assert!(matches!(config_request(&both), Err(m) if m == "cannot do both at the same time!"));
    let none = ConfigCmd { get: None, set: None };
    assert!(matches!(config_request(&none), Err(m) if m == "do atleast one!"));
    assert_eq!(got_config_line(&Some("v".into())), "v");
    assert_eq!(got_config_line(&None), "");
    assert_eq!(changed_config_line("dims", "768"), "successfully changed dims => 768");
    assert_eq!(set_failure_message("bad"), "could not set the key: bad");
}

#[test]
fn create_command_folder() {
    assert_eq!(codex_folder_name(&Some("book".into())), Some("book".to_string()));
    assert_eq!(codex_folder_name(&Some(".".into())), None);
    assert_eq!(codex_folder_name(&None), None);
    assert_eq!(created_message("i", "n"), "Codex created id: i, name: n");
}

#[test]
fn sync_progress_lines() {
    let ev = EngineEvent::Sync(SyncProgress::FileAdded { id: "1".into(), name: "a".into() });
    assert_eq!(sync_event_lines(&ev), vec![" + Added File = 1 | a"]);
    let ev = EngineEvent::Sync(SyncProgress::DimsMISMATCH { previous: 384, proposed: 768 });
    assert_eq!(sync_event_lines(&ev), vec!["@# DIMS mismatch found; current: 384, given: 768; reseting table"]);
    let ev = EngineEvent::Sync(SyncProgress::Done { added: 1, removed: 2, updated: 3 });
    assert_eq!(sync_event_lines(&ev), vec!["Files Synced: \nAdded: 1 \nRemoved: 2 \nUpdated: 3"]);
    assert_eq!(sync_event_lines(&EngineEvent::MLUnavailable).len(), 2);
    assert!(sync_event_lines(&EngineEvent::Clustering).is_empty());
    assert_eq!(adding_file_line("f.txt", &None), " -> Adding File f.txt (#Not Specified#)");
    assert_eq!(adding_file_line("f.txt", &Some("n".into())), " -> Adding File f.txt (n)");
    assert_eq!(added_file_line("id", "h"), "Added File id \n hash: h");
    assert_eq!(deleted_file_line("id"), "file deleted id");
}

#[test]
fn search_modes_and_cards() {
    assert_eq!(SearchMode::Lexical.as_str(), "lexical");
    assert_eq!(SearchMode::Semantic.as_str(), "semantic");
    assert_eq!(SearchMode::Mix.as_str(), "mix");
    let hits = vec![SearchHit {
        file_name: "f".into(),
        file_id: "abcd".into(),
        cluster: None,
        chunk_id: "c1".into(),
        distance: "0.5".into(),
        text: "body".into(),
    }];
    let cards = search_contents(&hits);
    assert_eq!(cards.len(), 1);
    let (meta, content) = &cards[0];
    assert_eq!(meta.title, "f");
    assert_eq!(meta.tags, vec!["Not Clustered Yet"]);
    assert_eq!(meta.additional_description.as_deref(), Some("Chunk id c1 Distance id 0.5"));
    assert_eq!(meta.config.max_letters, 4);
    assert_eq!(content, &vec!["body".to_string()]);
}

#[test]
fn cluster_views() {
    let stats = vec![
        ClusterStat {
            id: 1,
            name: "alpha".into(),
            created_at: "2024".into(),
            file_count: 3,
            chunk_count: 9,
            top_files: vec!["a".into(), "b".into()],
        },
        ClusterStat { id: -2, name: "b".into(), created_at: "yesterday".into(), file_count: 0, chunk_count: 0, top_files: vec![] },
    ];
    let cards = cluster_stat_contents(&stats);
    assert_eq!(cards[0].0.title, "-2");
    assert_eq!(cards[0].0.config.max_letters, 9);
    assert_eq!(cards[1].0.title, "1");
    assert_eq!(cards[1].1, vec!["File Count\n3", "Chunks Count\n9", "a\nb"]);
    let (t, c, k) = cluster_stats_configs();
    assert_eq!((t.row_separator.as_str(), c.vertical_border_style.as_str(), c.padding), (">", "$", 2));
    assert_eq!(k.max_letters, 500);
    let table = cluster_model_table("hdbscan", "umap");
    let text = table.render().ok().unwrap();
    assert!(text.contains("hdbscan") && text.contains("Showing 1 Records"));
    assert_eq!(dims_reduced_line(384, 30), "dimensions reduced 384 -> 30");
    let found = clusters_found_table(&vec![("x".to_string(), 4), ("y".to_string(), -1)]);
    assert_eq!(found.rows.len(), 2);
    assert!(found.render().ok().unwrap().contains("Showing 2 Records"));
    assert_eq!(clusters_found_line(2), "Unique clusters found 2");
    assert_eq!(i64_to_string(i64::MIN), i64::MIN.to_string());
    let (line, to_err) = clustering_event_line(&EngineEvent::OperationFinished);
    assert_eq!((line.as_str(), to_err), ("Clustering Operation Successfull...", false));
    let (line, to_err) = clustering_event_line(&EngineEvent::MLUnavailable);
    assert_eq!((line.as_str(), to_err), ("Unexpected Response Received", true));
}

#[test]
pub fn content_render_check() {
    let width: usize;
    let height: usize;
    if let Some((terminal_size::Width(w), terminal_size::Height(h))) = terminal_size::terminal_size() {
        width = w as usize;
        height = h as usize;
    } else {
        println!("Got error during width and height");
        width = 800 as usize;
        height = 600 as usize;
    }
    println!("terminal width: {}, terminal height {}", width, height);
    let meta_data_cell = MetaDataCell::new(
        "Some Cool Title",
        "Some Cool Subtitle",
        vec![String::from("Tag"), String::from("New Tag")],
        None,
        None,
    );
    let meta_data_cell2 = MetaDataCell::new(
        "Some Cool Title",
        "Some Cool Subtitle",
        vec![String::from("Tag"), String::from("New Tag")],
        Some("New Information Gained I Want to show".to_string()),
        None,
    );
    let content_table = ContentTable::build_relative_window(
        vec![
            (meta_data_cell, vec![String::from("Some Content"); 4]),
            (meta_data_cell2, vec![String::from("Some Content"); 6]),
        ],
        None,
        (None, None),
        width as u16,
        height as u16,
    );
    let rendered = content_table.render();
    println!("{}", rendered);
    assert!(rendered.contains("Some Cool Title"));
    assert!(rendered.contains("Some Content"));
}

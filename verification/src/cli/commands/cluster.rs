//! The cluster commands, and the tables and cards they print.
use vstd::prelude::*;

use crate::cli::commands::heading;
use crate::cli::commands::search::{meta_config_of_width, meta_config_with};
use crate::codex::codex_config::signed_decimal;
use crate::text::{chars_of, decimal, join_sep, join_strings, string_from_chars, usize_to_string};
use crate::tfidf::tokenizer::strs;
use crate::views::config::{ContentCellConfig, ContentTableCellConfig, ContentTableConfig};
use crate::views::content_viewer::MetaDataCell;
use crate::views::tabular_view::{Rows, TableError, TabularView};
use crate::views::types::AllignmentType;

verus! {

/// A command on the clusters of the codex of the current folder.
pub enum ClusterCmd {
    List,
    Stats,
    Reset,
    ListFiles(ListClusteredFiles),
}

/// Lists the files of a cluster, chosen by name or by id.
pub struct ListClusteredFiles {
    pub clustername: Option<String>,
    pub clusterid: Option<i32>,
}

/// What the engine reports of a cluster.
pub struct ClusterStat {
    pub id: i64,
    pub name: String,
    pub created_at: String,
    pub file_count: usize,
    pub chunk_count: usize,
    pub top_files: Vec<String>,
}

/// The text of a signed integer.
pub fn i64_to_string(n: i64) -> (s: String)
    ensures
        s@ == signed_decimal(n as int),
{
    if n < 0 {
        let m: u64 = ((0 - (n + 1)) as u64) + 1;
        let mut s = string_from_chars(&chars_of("-"));
        proof {
            reveal_strlit("-");
        }
        s.push_str(u64_to_string(m).as_str());
        assert(s@ =~= seq!['-'] + decimal(m as nat));
        s
    } else {
        u64_to_string(n as u64)
    }
}

/// The text of an unsigned 64-bit integer.
fn u64_to_string(n: u64) -> (s: String)
    ensures
        s@ == decimal(n as nat),
    decreases n,
{
    if n < 10 {
        usize_to_string(n as usize)
    } else {
        let mut s = u64_to_string(n / 10);
        s.push_str(usize_to_string((n % 10) as usize).as_str());
        proof {
            let d = (n % 10) as nat;
            assert(decimal(d) == seq![crate::text::digit_char(d)]);
        }
        assert(s@ =~= decimal((n / 10) as nat).push(crate::text::digit_char((n % 10) as nat)));
        s
    }
}

/// The card of a cluster: its id, name and creation time, then its file count, its
/// chunk count and its top files.
pub open spec fn stat_card(c: ClusterStat, card: (MetaDataCell, Vec<String>)) -> bool {
    &&& card.0.title@ == signed_decimal(c.id as int)
    &&& card.0.sub_title@ == c.name@
    &&& card.0.tags@.len() == 0
    &&& card.0.additional_description matches Some(d) && d@ == c.created_at@
    &&& card.0.config == meta_config_with(
        if c.name@.len() >= c.created_at@.len() { c.name@.len() as usize } else { c.created_at@.len() as usize },
    )
    &&& strs(card.1@) == seq![
        "File Count\n"@ + decimal(c.file_count as nat),
        "Chunks Count\n"@ + decimal(c.chunk_count as nat),
        join_sep(strs(c.top_files@), '\n'),
    ]
}

/// The cards of the cluster statistics, last cluster first.
pub fn cluster_stat_contents(stats: &Vec<ClusterStat>) -> (v: Vec<(MetaDataCell, Vec<String>)>)
    ensures
        v.len() == stats.len(),
        forall|k: int| 0 <= k < stats.len() ==> stat_card(#[trigger] stats@[stats.len() - 1 - k], v@[k]),
{
    let mut v: Vec<(MetaDataCell, Vec<String>)> = Vec::new();
    let n = stats.len();
    let mut i: usize = 0;
    while i < n
        invariant
            i <= n,
            n == stats.len(),
            v.len() == i,
            forall|k: int| 0 <= k < i ==> stat_card(#[trigger] stats@[n - 1 - k], v@[k]),
        decreases n - i,
    {
        let f = &stats[n - 1 - i];
        let name_len = chars_of(f.name.as_str()).len();
        let created_len = chars_of(f.created_at.as_str()).len();
        let width = if name_len >= created_len {
            name_len
        } else {
            created_len
        };
        let meta = MetaDataCell::new(
            i64_to_string(f.id).as_str(),
            f.name.as_str(),
            Vec::new(),
            Some(f.created_at.clone()),
            Some(meta_config_of_width(width)),
        );
        let mut files_line = string_from_chars(&chars_of("File Count\n"));
        files_line.push_str(usize_to_string(f.file_count).as_str());
        let mut chunks_line = string_from_chars(&chars_of("Chunks Count\n"));
        chunks_line.push_str(usize_to_string(f.chunk_count).as_str());
        let top = join_strings(&f.top_files, '\n');
        let contents = vec![files_line, chunks_line, top];
        assert(strs(contents@) =~= seq![files_line@, chunks_line@, top@]);
        v.push((meta, contents));
        i = i + 1;
    }
    v
}

/// The settings of the cluster statistics view: rows separated by `>`, cards bordered
/// by `$` with a padding of 2, contents centred; the rest as by default.
pub fn cluster_stats_configs() -> (r: (ContentTableConfig, ContentTableCellConfig, ContentCellConfig))
    ensures
        r.0.row_separator@ == ">"@,
        r.0.distance_between_rows == 1,
        r.0.window_width == 700,
        r.0.window_height == 600,
        r.1.vertical_border_style@ == "$"@,
        r.1.horizontal_border_style@ == seq!['-'],
        r.1.padding == 2,
        r.2.content_allignment == AllignmentType::CENTER,
        r.2.word_allignment == AllignmentType::LEFT,
        r.2.max_letters == 500,
        r.2.max_letters_per_line == 100,
        r.2.max_lines == 10,
{
    let mut table = ContentTableConfig::default();
    table.row_separator = string_from_chars(&chars_of(">"));
    let mut cell = ContentTableCellConfig::default();
    cell.vertical_border_style = string_from_chars(&chars_of("$"));
    cell.padding = 2;
    let mut content = ContentCellConfig::default();
    content.content_allignment = AllignmentType::CENTER;
    (table, cell, content)
}

/// The texts of a table row.
pub open spec fn row_texts(r: Seq<Option<Rows>>) -> Seq<Option<Seq<char>>> {
    r.map_values(|c: Option<Rows>| match c {
        Some(x) => Some(x.value@),
        None => None,
    })
}

/// The table of the clustering methods: one row with the clustering method and the
/// reduction method.
pub fn cluster_model_table(name: &str, reduction: &str) -> (t: TabularView)
    ensures
        t.cols@.len() == 2,
        t.cols@[0].text@ == "cluster method name"@,
        t.cols@[1].text@ == "dimensional reduction name"@,
        t.rows@.len() == 1,
        row_texts(t.rows@[0]@) == seq![Some(name@), Some(reduction@)],
{
    let mut t = TabularView::new(vec![heading("cluster method name"), heading("dimensional reduction name")]);
    let row = vec![Some(string_from_chars(&chars_of(name))), Some(string_from_chars(&chars_of(reduction)))];
    let r = t.add_row(row);
    assert(row_texts(t.rows@[0]@) =~= seq![Some(name@), Some(reduction@)]);
    t
}

/// The last line of the cluster statistics.
pub fn dims_reduced_line(dims: usize, reduced_to: usize) -> (s: String)
    ensures
        s@ == "dimensions reduced "@ + decimal(dims as nat) + " -> "@ + decimal(reduced_to as nat),
{
    let mut s = string_from_chars(&chars_of("dimensions reduced "));
    s.push_str(usize_to_string(dims).as_str());
    s.push_str(" -> ");
    s.push_str(usize_to_string(reduced_to).as_str());
    s
}

/// The table of the clusters found by a clustering: one row per (name, id) pair,
/// with the id first.
pub fn clusters_found_table(unique_clusters: &Vec<(String, i64)>) -> (t: TabularView)
    ensures
        t.cols@.len() == 2,
        t.cols@[0].text@ == "cluster id"@,
        t.cols@[1].text@ == "cluster name"@,
        t.rows@.len() == unique_clusters.len(),
        forall|k: int| 0 <= k < unique_clusters.len() ==> row_texts((#[trigger] t.rows@[k])@) == seq![
            Some(signed_decimal(unique_clusters@[k].1 as int)),
            Some(unique_clusters@[k].0@),
        ],
{
    let mut t = TabularView::new(vec![heading("cluster id"), heading("cluster name")]);
    let mut i: usize = 0;
    while i < unique_clusters.len()
        invariant
            i <= unique_clusters.len(),
            t.cols@.len() == 2,
            t.cols@[0].text@ == "cluster id"@,
            t.cols@[1].text@ == "cluster name"@,
            crate::views::tabular_view::widths_in_range(t.cols@),
            t.rows@.len() == i,
            forall|k: int| 0 <= k < i ==> row_texts((#[trigger] t.rows@[k])@) == seq![
                Some(signed_decimal(unique_clusters@[k].1 as int)),
                Some(unique_clusters@[k].0@),
            ],
        decreases unique_clusters.len() - i,
    {
        let (name, id) = &unique_clusters[i];
        let row = vec![Some(i64_to_string(*id)), Some(name.clone())];
        let ghost before = t.rows@;
        let _ = t.add_row(row);
        assert(row_texts(t.rows@[i as int]@) =~= seq![Some(signed_decimal(*id as int)), Some(name@)]);
        assert forall|k: int| 0 <= k < i + 1 implies row_texts((#[trigger] t.rows@[k])@) == seq![
            Some(signed_decimal(unique_clusters@[k].1 as int)),
            Some(unique_clusters@[k].0@),
        ] by {
            if k < i {
                assert(t.rows@.drop_last()[k] == before[k]);
                assert(t.rows@[k] == before[k]);
            }
        }
        i = i + 1;
    }
    t
}

/// The line printed with the clusters found.
pub fn clusters_found_line(clusters_found: usize) -> (s: String)
    ensures
        s@ == "Unique clusters found "@ + decimal(clusters_found as nat),
{
    let mut s = string_from_chars(&chars_of("Unique clusters found "));
    s.push_str(usize_to_string(clusters_found).as_str());
    s
}

/// The line printed for an event of a clustering, and whether it goes to the error
/// stream.
pub fn clustering_event_line(e: &crate::cli::commands::codex::EngineEvent) -> (r: (String, bool))
    ensures
        match *e {
            crate::cli::commands::codex::EngineEvent::OperationStarted => r.0@
                == "Starting Clustering, Preparing Resources...."@ && !r.1,
            crate::cli::commands::codex::EngineEvent::Clustering => r.0@ == "Finally Clustering Files... Please Wait..."@
                && !r.1,
            crate::cli::commands::codex::EngineEvent::OperationFinished => r.0@ == "Clustering Operation Successfull..."@
                && !r.1,
            _ => r.0@ == "Unexpected Response Received"@ && r.1,
        },
{
    match e {
        crate::cli::commands::codex::EngineEvent::OperationStarted => (
            string_from_chars(&chars_of("Starting Clustering, Preparing Resources....")),
            false,
        ),
        crate::cli::commands::codex::EngineEvent::Clustering => (
            string_from_chars(&chars_of("Finally Clustering Files... Please Wait...")),
            false,
        ),
        crate::cli::commands::codex::EngineEvent::OperationFinished => (
            string_from_chars(&chars_of("Clustering Operation Successfull...")),
            false,
        ),
        _ => (string_from_chars(&chars_of("Unexpected Response Received")), true),
    }
}

} // verus!

use aetherium::views::config::ContentTableCellConfig;
use aetherium::views::content_viewer::{ContentCell, ContentTableCell, MetaDataCell, Render};
use aetherium::views::tabular_view::{Column, Rows, TabularView};
use aetherium::views::types::AllignmentType;
use aetherium::views::utils::{alignText, saturating_string, wrap_text_single_line};

#[test]
fn text_fitting() {
    assert_eq!(alignText("ab", &AllignmentType::CENTER, 6, '*'), "**ab**");
    assert_eq!(alignText("ab", &AllignmentType::LEFT, 5, '-'), "ab---");
    assert_eq!(alignText("ab", &AllignmentType::RIGHT, 5, '-'), "---ab");
    assert_eq!(alignText("abcdef", &AllignmentType::CENTER, 3, '-'), "abcdef");
    assert_eq!(saturating_string("abcdefgh", 5), "ab...");
    assert_eq!(saturating_string("abc", 5), "abc");
    assert!(!wrap_text_single_line("one two three", 7).is_empty());
}

#[test]
fn tables_widen_and_refuse_bad_rows() {
    let mut t = TabularView::new(vec![Column::new("id"), Column::new("name")]);
    assert!(t.add_row(vec![Some("1".into()), Some("a long name".into())]).is_ok());
    assert!(t.add_row(vec![Some("2".into())]).is_err());
    assert_eq!(t.rows.len(), 1);
    assert_eq!(t.cols[1].spacing, "a long name".len() - "name".len());
    let text = t.render().ok().unwrap();
    assert!(text.contains("a long name"));
    assert!(text.ends_with("Showing 1 Records"));
}

#[test]
fn spacing_settles_after_one_pass() {
    let mut t = TabularView::new(vec![Column::new("id"), Column::new("name")]);
    t.rows.push(vec![Some(Rows::new("12345")), None]);
    t.rows.push(vec![Some(Rows::new("1")), Some(Rows::new("a longer name"))]);
    assert!(t.calculate_spacing().is_ok());
    let first: Vec<(String, usize)> = t.cols.iter().map(|c| (c.text.clone(), c.spacing)).collect();
    assert_eq!(first, vec![("id".to_string(), 3), ("name".to_string(), 9)]);
    assert!(t.calculate_spacing().is_ok());
    let second: Vec<(String, usize)> = t.cols.iter().map(|c| (c.text.clone(), c.spacing)).collect();
    assert_eq!(first, second);
}

#[test]
fn card_lines_are_rule_rows_rule() {
    let meta = MetaDataCell::new("Title", "Sub", vec!["t".to_string()], None, None);
    let cells = vec![
        ContentCell::new("first column text".to_string(), None),
        ContentCell::new("second".to_string(), None),
    ];
    let config = ContentTableCellConfig {
        horizontal_border_style: "=".to_string(),
        vertical_border_style: "#".to_string(),
        padding: 1,
    };
    let card = ContentTableCell::new(meta, cells, Some(config));
    let text = card.render();
    assert!(text.ends_with('\n'));
    let ls: Vec<&str> = text.lines().collect();
    assert!(ls.len() >= 3);
    assert_eq!(ls[0], ls[ls.len() - 1]);
    assert!(ls[0].starts_with(" ="));
    for l in &ls[1..ls.len() - 1] {
        assert!(l.starts_with('#') && l.ends_with('#'));
    }
}

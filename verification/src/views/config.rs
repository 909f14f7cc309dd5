//! Settings of the content views, with their defaults.
use vstd::prelude::*;

use crate::views::types::{AllignmentType, BoldType, Color, ITALLICType};

verus! {

/// Settings of a whole content table.
#[derive(Clone)]
pub struct ContentTableConfig {
    pub row_separator: String,
    pub distance_between_rows: usize,
    pub window_width: u16,
    pub window_height: u16,
}

/// Settings of one row (card) of a content table.
#[derive(Clone)]
pub struct ContentTableCellConfig {
    pub horizontal_border_style: String,
    pub vertical_border_style: String,
    pub padding: usize,
}

/// Settings of one content column of a card.
#[derive(Clone)]
pub struct ContentCellConfig {
    pub content_allignment: AllignmentType,
    pub word_allignment: AllignmentType,
    pub max_letters_per_line: usize,
    pub max_letters: usize,
    pub max_lines: usize,
    pub content_color: Color,
}

/// Settings of the metadata column of a card.
#[derive(Clone)]
pub struct MetaDataCellConfig {
    pub title_allignment: AllignmentType,
    pub sub_title_allignment: AllignmentType,
    pub tags_allignment: AllignmentType,
    pub additional_content_allignment: AllignmentType,
    pub title_color: Color,
    pub sub_title_color: Color,
    pub tags_color: Color,
    pub addtional_content_color: Color,
    pub cell_color: Color,
    pub title_bold: BoldType,
    pub tags_bold: BoldType,
    pub addtional_content_bold: BoldType,
    pub sub_title_bold: BoldType,
    pub tile_italic: ITALLICType,
    pub sub_title_italic: ITALLICType,
    pub tags_italic: ITALLICType,
    pub addtional_content_italic: ITALLICType,
    pub max_letters: usize,
}

impl Default for MetaDataCellConfig {
    fn default() -> (c: Self)
        ensures
            c.title_allignment == AllignmentType::CENTER,
            c.sub_title_allignment == AllignmentType::CENTER,
            c.tags_allignment == AllignmentType::CENTER,
            c.additional_content_allignment == AllignmentType::CENTER,
            c.title_color == Color::DEFAULT,
            c.sub_title_color == Color::DEFAULT,
            c.tags_color == Color::RANDOM,
            c.addtional_content_color == Color::DEFAULT,
            c.cell_color == Color::TRANSPARENT,
            c.title_bold == BoldType::SOME,
            c.sub_title_bold == BoldType::NONE,
            c.tags_bold == BoldType::SOME,
            c.addtional_content_bold == BoldType::NONE,
            c.tile_italic == ITALLICType::NONE,
            c.sub_title_italic == ITALLICType::SOME,
            c.tags_italic == ITALLICType::NONE,
            c.addtional_content_italic == ITALLICType::NONE,
            c.max_letters == 20,
    {
        Self {
            title_allignment: AllignmentType::CENTER,
            sub_title_allignment: AllignmentType::CENTER,
            title_color: Color::DEFAULT,
            sub_title_color: Color::DEFAULT,
            title_bold: BoldType::SOME,
            sub_title_bold: BoldType::NONE,
            tile_italic: ITALLICType::NONE,
            sub_title_italic: ITALLICType::SOME,
            cell_color: Color::TRANSPARENT,
            max_letters: 20,
            addtional_content_bold: BoldType::NONE,
            tags_bold: BoldType::SOME,
            tags_color: Color::RANDOM,
            additional_content_allignment: AllignmentType::CENTER,
            addtional_content_color: Color::DEFAULT,
            addtional_content_italic: ITALLICType::NONE,
            tags_italic: ITALLICType::NONE,
            tags_allignment: AllignmentType::CENTER,
        }
    }
}

impl Default for ContentTableCellConfig {
    fn default() -> (c: Self)
        ensures
            c.horizontal_border_style@ == seq!['-'],
            c.vertical_border_style@ == seq!['|'],
            c.padding == 2,
    {
        let mut h = String::new();
        h.push('-');
        let mut v = String::new();
        v.push('|');
        Self { horizontal_border_style: h, vertical_border_style: v, padding: 2 }
    }
}

impl Default for ContentCellConfig {
    fn default() -> (c: Self)
        ensures
            c.content_allignment == AllignmentType::CENTER,
            c.word_allignment == AllignmentType::LEFT,
            c.max_letters == 500,
            c.max_letters_per_line == 100,
            c.max_lines == 10,
            c.content_color == Color::DEFAULT,
    {
        Self {
            content_allignment: AllignmentType::CENTER,
            word_allignment: AllignmentType::LEFT,
            max_letters: 500,
            max_letters_per_line: 100,
            max_lines: 10,
            content_color: Color::DEFAULT,
        }
    }
}

impl Default for ContentTableConfig {
    fn default() -> (c: Self)
        ensures
            c.row_separator@ == seq!['*'],
            c.distance_between_rows == 1,
            c.window_width == 700,
            c.window_height == 600,
    {
        let mut sep = String::new();
        sep.push('*');
        Self { row_separator: sep, distance_between_rows: 1, window_width: 700, window_height: 600 }
    }
}

} // verus!

//! Content cards: a metadata column beside one or more wrapped content columns.
use vstd::prelude::*;

use crate::text::{
    chars_of, decimal, has_boundary, join_sep, join_strings, lines, lines_of, flatten_lines, push_char_repeat,
    push_repeat, repeat, split_newline, split_newlines, string_from_chars, usize_to_string, vviews,
};
use crate::views::config::{ContentCellConfig, ContentTableCellConfig, ContentTableConfig, MetaDataCellConfig};
use crate::views::types::{AllignmentType, Color};
use crate::views::utils::{
    alignText, aligned, fill, long_words_cuttable, sat_sub, saturated, saturating_string, sviews,
    wrap_text_single_line, wrapped,
};

verus! {

/// Something that can be drawn as text.
pub trait Render {
    /// Whether the thing can be drawn.
    spec fn renderable(&self) -> bool;

    /// The text of the thing.
    fn render(&self) -> String
        requires
            self.renderable(),
    ;
}

/// One content column of a card.
pub struct ContentCell {
    pub content: String,
    pub config: ContentCellConfig,
}

/// The default settings of a content column.
pub open spec fn default_content_cell_config() -> ContentCellConfig {
    ContentCellConfig {
        content_allignment: AllignmentType::CENTER,
        word_allignment: AllignmentType::LEFT,
        max_letters: 500,
        max_letters_per_line: 100,
        max_lines: 10,
        content_color: crate::views::types::Color::DEFAULT,
    }
}

impl ContentCell {
    /// A content column; without settings it takes the default ones.
    pub fn new(content: String, config: Option<ContentCellConfig>) -> (c: Self)
        ensures
            c.content == content,
            c.config == match config {
                Some(cfg) => cfg,
                None => default_content_cell_config(),
            },
    {
        let config = match config {
            Some(cfg) => cfg,
            None => ContentCellConfig::default(),
        };
        ContentCell { content, config }
    }
}

/// The wrapped lines of every piece between newlines.
pub open spec fn wrapped_pieces(pieces: Seq<Seq<char>>, max_per_line: nat) -> Seq<Seq<Seq<char>>> {
    pieces.map_values(|p: Seq<char>| wrapped(p, max_per_line))
}

/// All wrapped lines of a content column.
pub open spec fn content_lines(content: Seq<char>, max_per_line: nat) -> Seq<Seq<char>> {
    flatten_lines(wrapped_pieces(split_newline(content), max_per_line))
}

/// Each line placed in the column width.
pub open spec fn aligned_lines(ls: Seq<Seq<char>>, alignment: AllignmentType, width: nat) -> Seq<Seq<char>> {
    ls.map_values(|l: Seq<char>| aligned(l, alignment, width, ' '))
}

/// The text of a content column: its first `max_lines` wrapped lines, each placed
/// in the column, then a newline, then, when lines were left out, a right-aligned
/// note `...<n> more lines`.
pub open spec fn content_rendered(content: Seq<char>, cfg: ContentCellConfig) -> Seq<char> {
    let all = content_lines(content, cfg.max_letters_per_line as nat);
    let more = sat_sub(all.len() as int, cfg.max_lines as int);
    let shown = if all.len() > cfg.max_lines { all.take(cfg.max_lines as int) } else { all };
    let body = join_sep(aligned_lines(shown, cfg.content_allignment, cfg.max_letters_per_line as nat), '\n')
        + seq!['\n'];
    if more > 0 {
        body + aligned("..."@ + decimal(more) + " more lines"@, AllignmentType::RIGHT, cfg.max_letters_per_line as nat, ' ')
    } else {
        body
    }
}

/// Every piece of `content` between newlines can be wrapped at `max_per_line` bytes.
pub open spec fn content_wrappable(content: Seq<char>, max_per_line: nat) -> bool {
    forall|i: int| 0 <= i < split_newline(content).len() ==> long_words_cuttable(#[trigger] split_newline(content)[i], max_per_line)
}

/// Each string of `lines` placed in a field `width` wide.
fn align_all(lines: &Vec<String>, alignment: &AllignmentType, width: usize) -> (placed: Vec<String>)
    ensures
        sviews(placed@) == aligned_lines(sviews(lines@), *alignment, width as nat),
{
    let mut placed: Vec<String> = Vec::new();
    let mut j: usize = 0;
    while j < lines.len()
        invariant
            j <= lines.len(),
            sviews(placed@) == aligned_lines(sviews(lines@).take(j as int), *alignment, width as nat),
        decreases lines.len() - j,
    {
        let ghost old_placed = placed@;
        let a = alignText(lines[j].as_str(), alignment, width, ' ');
        placed.push(a);
        assert(sviews(placed@) =~= sviews(old_placed).push(a@));
        assert(sviews(lines@).take(j + 1) =~= sviews(lines@).take(j as int).push(lines@[j as int]@));
        j = j + 1;
    }
    assert(sviews(lines@).take(j as int) =~= sviews(lines@));
    placed
}

impl Render for ContentCell {
    /// Whether the cell can be drawn: its long words can be cut at the line width.
    open spec fn renderable(&self) -> bool {
        content_wrappable(self.content@, self.config.max_letters_per_line as nat)
    }

    /// The text of the cell.
    fn render(&self) -> (r: String)
        ensures
            r@ == content_rendered(self.content@, self.config),
    {
        let mpl = self.config.max_letters_per_line;
        let pieces = split_newlines(&chars_of(self.content.as_str()));
        let ghost ps = vviews(pieces@);
        let mut lines: Vec<String> = Vec::new();
        let mut i: usize = 0;
        while i < pieces.len()
            invariant
                i <= pieces.len(),
                ps == vviews(pieces@),
                ps == split_newline(self.content@),
                content_wrappable(self.content@, mpl as nat),
                sviews(lines@) == flatten_lines(wrapped_pieces(ps.take(i as int), mpl as nat)),
            decreases pieces.len() - i,
        {
            assert(ps[i as int] == pieces@[i as int]@);
            let piece = string_from_chars(&pieces[i]);
            let mut wrapped_piece = wrap_text_single_line(piece.as_str(), mpl);
            let ghost before = lines@;
            let ghost added = wrapped_piece@;
            lines.append(&mut wrapped_piece);
            assert(sviews(lines@) =~= sviews(before) + sviews(added));
            assert(wrapped_pieces(ps.take(i + 1), mpl as nat).drop_last() =~= wrapped_pieces(ps.take(i as int), mpl as nat));
            i = i + 1;
        }
        assert(ps.take(pieces.len() as int) =~= ps);
        let total = lines.len();
        let more_lines = if total > self.config.max_lines { total - self.config.max_lines } else { 0 };
        let ghost all = sviews(lines@);
        lines.truncate(self.config.max_lines);
        assert(sviews(lines@) =~= if all.len() > self.config.max_lines { all.take(self.config.max_lines as int) } else { all });
        let mut shown: Vec<String> = Vec::new();
        let mut j: usize = 0;
        while j < lines.len()
            invariant
                j <= lines.len(),
                sviews(shown@) == aligned_lines(sviews(lines@).take(j as int), self.config.content_allignment, mpl as nat),
            decreases lines.len() - j,
        {
            let ghost old_shown = shown@;
            let a = alignText(lines[j].as_str(), &self.config.content_allignment, mpl, ' ');
            shown.push(a);
            assert(sviews(shown@) =~= sviews(old_shown).push(a@));
            assert(sviews(lines@)[j as int] == lines@[j as int]@);
            assert(sviews(lines@).take(j + 1) =~= sviews(lines@).take(j as int).push(lines@[j as int]@));
            j = j + 1;
            assert(sviews(shown@) =~= aligned_lines(sviews(lines@).take(j as int), self.config.content_allignment, mpl as nat));
        }
        assert(sviews(lines@).take(j as int) =~= sviews(lines@));
        let mut result = join_strings(&shown, '\n');
        result.push('\n');
        if more_lines > 0 {
            let mut note = String::new();
            note.push_str("...");
            let count = usize_to_string(more_lines);
            note.push_str(count.as_str());
            note.push_str(" more lines");
            let tail = alignText(note.as_str(), &AllignmentType::RIGHT, mpl, ' ');
            result.push_str(tail.as_str());
        }
        assert(result@ =~= content_rendered(self.content@, self.config));
        result
    }
}


/// The metadata column of a card: a title, a subtitle, tags and an optional note.
pub struct MetaDataCell {
    pub title: String,
    pub sub_title: String,
    pub tags: Vec<String>,
    pub additional_description: Option<String>,
    pub config: MetaDataCellConfig,
}

/// The default settings of a metadata column.
pub open spec fn default_meta_config() -> MetaDataCellConfig {
    MetaDataCellConfig {
        title_allignment: AllignmentType::CENTER,
        sub_title_allignment: AllignmentType::CENTER,
        tags_allignment: AllignmentType::CENTER,
        additional_content_allignment: AllignmentType::CENTER,
        title_color: crate::views::types::Color::DEFAULT,
        sub_title_color: crate::views::types::Color::DEFAULT,
        tags_color: crate::views::types::Color::RANDOM,
        addtional_content_color: crate::views::types::Color::DEFAULT,
        cell_color: crate::views::types::Color::TRANSPARENT,
        title_bold: crate::views::types::BoldType::SOME,
        tags_bold: crate::views::types::BoldType::SOME,
        addtional_content_bold: crate::views::types::BoldType::NONE,
        sub_title_bold: crate::views::types::BoldType::NONE,
        tile_italic: crate::views::types::ITALLICType::NONE,
        sub_title_italic: crate::views::types::ITALLICType::SOME,
        tags_italic: crate::views::types::ITALLICType::NONE,
        addtional_content_italic: crate::views::types::ITALLICType::NONE,
        max_letters: 20,
    }
}

/// The note of a metadata column, or the empty text.
pub open spec fn note_of(d: Option<String>) -> Seq<char> {
    match d {
        Some(s) => s@,
        None => Seq::empty(),
    }
}

/// The text of a metadata column: title, subtitle and tags, each shortened to the
/// column width and placed in it, separated by blank lines, then the note wrapped
/// to the column width with each line placed in it.
pub open spec fn meta_rendered(m: MetaDataCell) -> Seq<char> {
    let max = m.config.max_letters as nat;
    let tags = join_sep(sviews(m.tags@), '/');
    aligned(saturated(m.title@, max), m.config.title_allignment, max, ' ') + seq!['\n', '\n']
        + aligned(saturated(m.sub_title@, max), m.config.sub_title_allignment, max, ' ') + seq!['\n', '\n']
        + aligned(saturated(tags, max), m.config.tags_allignment, max, ' ') + seq!['\n', '\n']
        + join_sep(aligned_lines(wrapped(note_of(m.additional_description), max), m.config.additional_content_allignment, max), '\n')
}

/// A text can be shortened to `max` characters: when too long, its cut falls on a
/// character boundary.
pub open spec fn shortenable(s: Seq<char>, max: nat) -> bool {
    s.len() > max ==> has_boundary(s, sat_sub(max as int, 3) as int)
}

impl MetaDataCell {
    /// A metadata column; without settings it takes the default ones.
    pub fn new(
        title: &str,
        sub_title: &str,
        tags: Vec<String>,
        additional_description: Option<String>,
        config: Option<MetaDataCellConfig>,
    ) -> (m: Self)
        ensures
            m.title@ == title@,
            m.sub_title@ == sub_title@,
            m.tags == tags,
            m.additional_description == additional_description,
            m.config == match config {
                Some(cfg) => cfg,
                None => default_meta_config(),
            },
    {
        let config = match config {
            Some(cfg) => cfg,
            None => MetaDataCellConfig::default(),
        };
        MetaDataCell {
            title: string_from_chars(&chars_of(title)),
            sub_title: string_from_chars(&chars_of(sub_title)),
            tags,
            additional_description,
            config,
        }
    }

}

impl Render for MetaDataCell {
    /// Whether the column can be drawn: every cut it makes falls on a character boundary.
    open spec fn renderable(&self) -> bool {
        let max = self.config.max_letters as nat;
        &&& shortenable(self.title@, max)
        &&& shortenable(self.sub_title@, max)
        &&& shortenable(join_sep(sviews(self.tags@), '/'), max)
        &&& long_words_cuttable(note_of(self.additional_description), max)
    }

    /// The text of the column.
    #[verifier::spinoff_prover]
    #[verifier::rlimit(40)]
    fn render(&self) -> (r: String)
        ensures
            r@ == meta_rendered(*self),
    {
        let max = self.config.max_letters;
        let title = saturating_string(self.title.as_str(), max);
        let sub_title = saturating_string(self.sub_title.as_str(), max);
        let joined_tags = join_strings(&self.tags, '/');
        let tags = saturating_string(joined_tags.as_str(), max);
        let note = match &self.additional_description {
            Some(d) => string_from_chars(&chars_of(d.as_str())),
            None => String::new(),
        };
        let additional = wrap_text_single_line(note.as_str(), max);
        let mut result = String::new();
        let a1 = alignText(title.as_str(), &self.config.title_allignment, max, ' ');
        result.push_str(a1.as_str());
        result.push('\n');
        result.push('\n');
        let a2 = alignText(sub_title.as_str(), &self.config.sub_title_allignment, max, ' ');
        result.push_str(a2.as_str());
        result.push('\n');
        result.push('\n');
        let a3 = alignText(tags.as_str(), &self.config.tags_allignment, max, ' ');
        result.push_str(a3.as_str());
        result.push('\n');
        result.push('\n');
        assert(result@ =~= a1@ + seq!['\n', '\n'] + a2@ + seq!['\n', '\n'] + a3@ + seq!['\n', '\n']);
        let placed = align_all(&additional, &self.config.additional_content_allignment, max);
        let body = join_strings(&placed, '\n');
        result.push_str(body.as_str());
        result
    }
}


/// One card of a content table: a metadata column and content columns.
pub struct ContentTableCell {
    pub meta_data: MetaDataCell,
    pub content_cell: Vec<ContentCell>,
    pub config: ContentTableCellConfig,
}

/// The settings `ContentTableCellConfig::default` gives.
pub open spec fn is_default_cell_config(c: ContentTableCellConfig) -> bool {
    c.horizontal_border_style@ == seq!['-'] && c.vertical_border_style@ == seq!['|'] && c.padding == 2
}

/// Copies the settings of a card.
fn copy_cell_config(c: &ContentTableCellConfig) -> (r: ContentTableCellConfig)
    ensures
        r == *c,
{
    ContentTableCellConfig {
        horizontal_border_style: c.horizontal_border_style.clone(),
        vertical_border_style: c.vertical_border_style.clone(),
        padding: c.padding,
    }
}

impl ContentTableCell {
    /// A card; without settings it takes the default ones.
    pub fn new(meta_data: MetaDataCell, content_cell: Vec<ContentCell>, config: Option<ContentTableCellConfig>) -> (c: Self)
        ensures
            c.meta_data == meta_data,
            c.content_cell == content_cell,
            match config {
                Some(cfg) => c.config == cfg,
                None => is_default_cell_config(c.config),
            },
    {
        let config = match &config {
            Some(cfg) => copy_cell_config(cfg),
            None => ContentTableCellConfig::default(),
        };
        ContentTableCell { meta_data, content_cell, config }
    }
}

/// `ls` extended to `h` lines with `filler`.
pub open spec fn pad_lines(ls: Seq<Seq<char>>, h: nat, filler: Seq<char>) -> Seq<Seq<char>> {
    Seq::new(if h > ls.len() { h } else { ls.len() }, |i: int| if i < ls.len() { ls[i] } else { filler })
}

/// The number of lines of the longest column.
pub open spec fn max_height(cols: Seq<Seq<Seq<char>>>) -> nat
    decreases cols.len(),
{
    if cols.len() == 0 {
        0
    } else {
        let m = max_height(cols.drop_last());
        if cols.last().len() > m { cols.last().len() } else { m }
    }
}

/// The lines of each content column of `cells`.
pub open spec fn column_lines(cells: Seq<ContentCell>) -> Seq<Seq<Seq<char>>> {
    cells.map_values(|c: ContentCell| lines(content_rendered(c.content@, c.config)))
}

/// The rule segments over the content columns: padding, then the border style
/// repeated over the column's width.
pub open spec fn content_borders(cells: Seq<ContentCell>, padding: nat, horiz: Seq<char>) -> Seq<char>
    decreases cells.len(),
{
    if cells.len() == 0 {
        Seq::empty()
    } else {
        content_borders(cells.drop_last(), padding, horiz) + fill(' ', 2 * padding)
            + repeat(horiz, cells.last().config.max_letters_per_line as nat)
    }
}

/// Line `i` of the first `k` of `n` content columns, each behind a vertical border,
/// with a border and padding after every column but the last.
pub open spec fn cols_text(pc: Seq<Seq<Seq<char>>>, i: int, k: int, vert: Seq<char>, padding: nat) -> Seq<char>
    decreases k,
{
    if k <= 0 {
        Seq::empty()
    } else {
        let n = pc.len();
        cols_text(pc, i, k - 1, vert, padding) + vert + pc[k - 1][i] + if n > 1 && k - 1 < n - 1 {
            vert + fill(' ', padding)
        } else {
            Seq::empty()
        }
    }
}

/// Line `i` of a card.
pub open spec fn card_row(pm: Seq<Seq<char>>, pc: Seq<Seq<Seq<char>>>, i: int, vert: Seq<char>, padding: nat, meta_width: nat) -> Seq<char> {
    vert + fill(' ', padding) + pm[i] + fill(' ', sat_sub(meta_width as int, pm[i].len() as int)) + vert
        + fill(' ', padding) + cols_text(pc, i, pc.len() as int, vert, padding) + vert + seq!['\n']
}

/// The first `h` lines of a card.
pub open spec fn card_rows(pm: Seq<Seq<char>>, pc: Seq<Seq<Seq<char>>>, h: int, vert: Seq<char>, padding: nat, meta_width: nat) -> Seq<char>
    decreases h,
{
    if h <= 0 {
        Seq::empty()
    } else {
        card_rows(pm, pc, h - 1, vert, padding, meta_width) + card_row(pm, pc, h - 1, vert, padding, meta_width)
    }
}

/// The text of a card: a rule, then as many lines as its tallest column, each with
/// the metadata column padded to its width and the content columns side by side,
/// then the rule again.
pub open spec fn card_rendered(c: ContentTableCell) -> Seq<char> {
    let meta = lines(meta_rendered(c.meta_data));
    let cols = column_lines(c.content_cell@);
    let height = if meta.len() > max_height(cols) { meta.len() } else { max_height(cols) };
    let padding = c.config.padding as nat;
    let max_letters = c.meta_data.config.max_letters as nat;
    let meta_width = max_letters + padding;
    let pm = pad_lines(meta, height, fill(' ', max_letters));
    let content_width = if c.content_cell.len() > 0 { c.content_cell@[0].config.max_letters_per_line as nat } else { 0 };
    let pc = cols.map_values(|col: Seq<Seq<char>>| pad_lines(col, height, fill(' ', content_width)));
    let horiz = c.config.horizontal_border_style@;
    let border = fill(' ', padding) + repeat(horiz, meta_width) + fill(' ', padding)
        + content_borders(c.content_cell@, padding, horiz) + seq!['\n'];
    border + card_rows(pm, pc, height as int, c.config.vertical_border_style@, padding, meta_width) + border
}

/// The strings held by a vector of string vectors.
pub open spec fn ssviews(v: Seq<Vec<String>>) -> Seq<Seq<Seq<char>>> {
    v.map_values(|c: Vec<String>| sviews(c@))
}

/// The lines of `s`, as strings.
fn line_strings(s: &String) -> (r: Vec<String>)
    ensures
        sviews(r@) == lines(s@),
{
    let ls = lines_of(&chars_of(s.as_str()));
    let mut r: Vec<String> = Vec::new();
    let mut i: usize = 0;
    while i < ls.len()
        invariant
            i <= ls.len(),
            sviews(r@) == vviews(ls@).take(i as int),
        decreases ls.len() - i,
    {
        let ghost old_r = r@;
        let x = string_from_chars(&ls[i]);
        r.push(x);
        assert(sviews(r@) =~= sviews(old_r).push(x@));
        assert(vviews(ls@).take(i + 1) =~= vviews(ls@).take(i as int).push(ls@[i as int]@));
        i = i + 1;
    }
    assert(vviews(ls@).take(ls.len() as int) =~= vviews(ls@));
    r
}

/// A copy of `s`.
fn copy_string(s: &String) -> (r: String)
    ensures
        r@ == s@,
{
    string_from_chars(&chars_of(s.as_str()))
}

/// Extends `ls` to `h` strings with `filler`.
fn pad_strings(ls: &mut Vec<String>, h: usize, filler: &String)
    ensures
        sviews(final(ls)@) == pad_lines(sviews(old(ls)@), h as nat, filler@),
        final(ls).len() == if h > old(ls).len() { h } else { old(ls).len() },
{
    let ghost orig = sviews(ls@);
    while ls.len() < h
        invariant
            sviews(ls@) == pad_lines(orig, ls.len() as nat, filler@),
            ls.len() >= orig.len(),
            orig.len() == old(ls).len(),
            ls.len() <= if h > orig.len() { h as int } else { orig.len() as int },
        decreases h - ls.len(),
    {
        let ghost old_ls = ls@;
        let x = copy_string(filler);
        ls.push(x);
        assert(sviews(ls@) =~= sviews(old_ls).push(x@));
        assert(sviews(ls@) =~= pad_lines(orig, ls.len() as nat, filler@));
    }
    assert(sviews(ls@) =~= pad_lines(orig, h as nat, filler@));
}

/// A copy of `ls` extended to `h` strings with `filler`.
fn padded_copy(ls: &Vec<String>, h: usize, filler: &String) -> (r: Vec<String>)
    ensures
        sviews(r@) == pad_lines(sviews(ls@), h as nat, filler@),
        r.len() == if h > ls.len() { h } else { ls.len() },
{
    let mut col: Vec<String> = Vec::new();
    let mut m: usize = 0;
    while m < ls.len()
        invariant
            m <= ls.len(),
            sviews(col@) == sviews(ls@).take(m as int),
        decreases ls.len() - m,
    {
        let ghost old_col = col@;
        let x = copy_string(&ls[m]);
        col.push(x);
        assert(sviews(col@) =~= sviews(old_col).push(x@));
        assert(sviews(ls@).take(m + 1) =~= sviews(ls@).take(m as int).push(ls@[m as int]@));
        m = m + 1;
    }
    assert(sviews(ls@).take(m as int) =~= sviews(ls@));
    pad_strings(&mut col, h, filler);
    col
}

/// Appends line `i` of the content columns.
fn push_cols_text(result: &mut String, pc: &Vec<Vec<String>>, i: usize, vert: &String, padding: usize)
    requires
        forall|k: int| 0 <= k < pc.len() ==> i < (#[trigger] pc@[k]).len(),
    ensures
        final(result)@ == old(result)@ + cols_text(ssviews(pc@), i as int, pc.len() as int, vert@, padding as nat),
{
    let ghost v = ssviews(pc@);
    let is_more_cols = pc.len() > 1;
    let mut k: usize = 0;
    while k < pc.len()
        invariant
            k <= pc.len(),
            v == ssviews(pc@),
            is_more_cols == (pc.len() > 1),
            forall|m: int| 0 <= m < pc.len() ==> i < (#[trigger] pc@[m]).len(),
            result@ == old(result)@ + cols_text(v, i as int, k as int, vert@, padding as nat),
        decreases pc.len() - k,
    {
        assert(v[k as int] == sviews(pc@[k as int]@));
        assert(pc@[k as int].len() > i);
        assert(v[k as int][i as int] == pc@[k as int]@[i as int]@);
        result.push_str(vert.as_str());
        result.push_str(pc[k][i].as_str());
        if is_more_cols && k < pc.len() - 1 {
            result.push_str(vert.as_str());
            push_char_repeat(result, ' ', padding);
        }
        k = k + 1;
        assert(result@ =~= old(result)@ + cols_text(v, i as int, k as int, vert@, padding as nat));
    }
}

/// The lines of each content column.
fn render_columns(cells: &Vec<ContentCell>) -> (cols: Vec<Vec<String>>)
    requires
        forall|m: int| 0 <= m < cells.len() ==> (#[trigger] cells@[m]).renderable(),
    ensures
        ssviews(cols@) == column_lines(cells@),
{
    let mut cols: Vec<Vec<String>> = Vec::new();
    let mut k: usize = 0;
    while k < cells.len()
        invariant
            k <= cells.len(),
            forall|m: int| 0 <= m < cells.len() ==> (#[trigger] cells@[m]).renderable(),
            ssviews(cols@) == column_lines(cells@.take(k as int)),
        decreases cells.len() - k,
    {
        assert(cells@[k as int].renderable());
        let text = cells[k].render();
        let col = line_strings(&text);
        let ghost old_cols = cols@;
        cols.push(col);
        assert(ssviews(cols@) =~= ssviews(old_cols).push(sviews(col@)));
        assert(column_lines(cells@.take(k + 1)) =~= column_lines(cells@.take(k as int)).push(
            lines(content_rendered(cells@[k as int].content@, cells@[k as int].config))));
        k = k + 1;
    }
    assert(cells@.take(k as int) =~= cells@);
    cols
}

/// The number of lines of the tallest column.
fn tallest(cols: &Vec<Vec<String>>) -> (h: usize)
    ensures
        h as nat == max_height(ssviews(cols@)),
{
    let ghost colv = ssviews(cols@);
    let mut h: usize = 0;
    let mut k: usize = 0;
    while k < cols.len()
        invariant
            k <= cols.len(),
            colv == ssviews(cols@),
            h as nat == max_height(colv.take(k as int)),
        decreases cols.len() - k,
    {
        assert(colv.take(k + 1).drop_last() =~= colv.take(k as int));
        assert(colv[k as int].len() == cols@[k as int].len());
        if cols[k].len() > h {
            h = cols[k].len();
        }
        k = k + 1;
    }
    assert(colv.take(k as int) =~= colv);
    h
}

/// Each column extended to `height` lines with `filler`.
fn pad_columns(cols: &Vec<Vec<String>>, height: usize, filler: &String) -> (pc: Vec<Vec<String>>)
    requires
        height >= max_height(ssviews(cols@)),
    ensures
        ssviews(pc@) == ssviews(cols@).map_values(|col: Seq<Seq<char>>| pad_lines(col, height as nat, filler@)),
        forall|m: int| 0 <= m < pc.len() ==> (#[trigger] pc@[m]).len() == height,
{
    let ghost colv = ssviews(cols@);
    let mut pc: Vec<Vec<String>> = Vec::new();
    let mut k: usize = 0;
    while k < cols.len()
        invariant
            k <= cols.len(),
            colv == ssviews(cols@),
            height >= max_height(colv),
            ssviews(pc@) == colv.take(k as int).map_values(|col: Seq<Seq<char>>| pad_lines(col, height as nat, filler@)),
            forall|m: int| 0 <= m < pc.len() ==> (#[trigger] pc@[m]).len() == height,
        decreases cols.len() - k,
    {
        proof {
            lemma_max_height(colv, k as int);
        }
        assert(colv[k as int].len() == cols@[k as int].len());
        let col = padded_copy(&cols[k], height, filler);
        let ghost old_pc = pc@;
        pc.push(col);
        assert(ssviews(pc@) =~= ssviews(old_pc).push(sviews(col@)));
        assert(colv.take(k + 1) =~= colv.take(k as int).push(colv[k as int]));
        assert(colv.take(k + 1).map_values(|col: Seq<Seq<char>>| pad_lines(col, height as nat, filler@))
            =~= colv.take(k as int).map_values(|col: Seq<Seq<char>>| pad_lines(col, height as nat, filler@)).push(
            pad_lines(colv[k as int], height as nat, filler@)));
        k = k + 1;
    }
    assert(colv.take(k as int) =~= colv);
    pc
}

/// The rule above and below a card.
fn card_border(cells: &Vec<ContentCell>, padding: usize, meta_width: usize, horiz: &str) -> (border: String)
    requires
        2 * padding <= usize::MAX,
    ensures
        border@ == fill(' ', padding as nat) + repeat(horiz@, meta_width as nat) + fill(' ', padding as nat)
            + content_borders(cells@, padding as nat, horiz@) + seq!['\n'],
{
    let mut border = String::new();
    push_char_repeat(&mut border, ' ', padding);
    push_repeat(&mut border, horiz, meta_width);
    push_char_repeat(&mut border, ' ', padding);
    let ghost border_head = border@;
    let mut k: usize = 0;
    while k < cells.len()
        invariant
            k <= cells.len(),
            2 * padding <= usize::MAX,
            border@ == border_head + content_borders(cells@.take(k as int), padding as nat, horiz@),
        decreases cells.len() - k,
    {
        assert(cells@.take(k + 1).drop_last() =~= cells@.take(k as int));
        push_char_repeat(&mut border, ' ', 2 * padding);
        push_repeat(&mut border, horiz, cells[k].config.max_letters_per_line);
        k = k + 1;
        assert(border@ =~= border_head + content_borders(cells@.take(k as int), padding as nat, horiz@));
    }
    assert(cells@.take(k as int) =~= cells@);
    border.push('\n');
    border
}

/// Appends line `i` of a card.
fn push_card_row(
    result: &mut String,
    meta_line: &String,
    pc: &Vec<Vec<String>>,
    i: usize,
    vert: &String,
    padding: usize,
    meta_width: usize,
    Ghost(pmv): Ghost<Seq<Seq<char>>>,
)
    requires
        0 <= i < pmv.len(),
        pmv[i as int] == meta_line@,
        forall|m: int| 0 <= m < pc.len() ==> i < (#[trigger] pc@[m]).len(),
    ensures
        final(result)@ == old(result)@ + card_row(pmv, ssviews(pc@), i as int, vert@, padding as nat, meta_width as nat),
{
    let line_len = chars_of(meta_line.as_str()).len();
    result.push_str(vert.as_str());
    push_char_repeat(result, ' ', padding);
    result.push_str(meta_line.as_str());
    let gap = if meta_width > line_len { meta_width - line_len } else { 0 };
    push_char_repeat(result, ' ', gap);
    result.push_str(vert.as_str());
    push_char_repeat(result, ' ', padding);
    push_cols_text(result, pc, i, vert, padding);
    result.push_str(vert.as_str());
    result.push('\n');
    assert(result@ =~= old(result)@ + card_row(pmv, ssviews(pc@), i as int, vert@, padding as nat, meta_width as nat));
}

/// Appends the first `height` lines of a card.
fn push_card_rows(
    result: &mut String,
    meta_lines: &Vec<String>,
    pc: &Vec<Vec<String>>,
    height: usize,
    vert: &String,
    padding: usize,
    meta_width: usize,
)
    requires
        meta_lines.len() == height,
        forall|m: int| 0 <= m < pc.len() ==> (#[trigger] pc@[m]).len() == height,
    ensures
        final(result)@ == old(result)@ + card_rows(sviews(meta_lines@), ssviews(pc@), height as int, vert@, padding as nat, meta_width as nat),
{
    let ghost pmv = sviews(meta_lines@);
    let ghost pcv = ssviews(pc@);
    let mut i: usize = 0;
    while i < height
        invariant
            i <= height,
            meta_lines.len() == height,
            pmv == sviews(meta_lines@),
            pcv == ssviews(pc@),
            forall|m: int| 0 <= m < pc.len() ==> (#[trigger] pc@[m]).len() == height,
            result@ == old(result)@ + card_rows(pmv, pcv, i as int, vert@, padding as nat, meta_width as nat),
        decreases height - i,
    {
        assert(pmv[i as int] == meta_lines@[i as int]@);
        push_card_row(result, &meta_lines[i], pc, i, vert, padding, meta_width, Ghost(pmv));
        i = i + 1;
        assert(result@ =~= old(result)@ + card_rows(pmv, pcv, i as int, vert@, padding as nat, meta_width as nat));
    }
}

impl Render for ContentTableCell {
    /// Whether the card can be drawn: its columns can, and its widths are `usize` values.
    open spec fn renderable(&self) -> bool {
        &&& self.meta_data.renderable()
        &&& forall|k: int| 0 <= k < self.content_cell.len() ==> (#[trigger] self.content_cell@[k]).renderable()
        &&& self.meta_data.config.max_letters + self.config.padding <= usize::MAX
        &&& 2 * self.config.padding <= usize::MAX
    }

    /// The text of the card.
    fn render(&self) -> (r: String)
        ensures
            r@ == card_rendered(*self),
    {
        let meta_text = self.meta_data.render();
        let mut meta_lines = line_strings(&meta_text);
        let cols = render_columns(&self.content_cell);
        let content_height = tallest(&cols);
        let height = if meta_lines.len() > content_height { meta_lines.len() } else { content_height };
        let padding = self.config.padding;
        let max_letters = self.meta_data.config.max_letters;
        let meta_width = max_letters + padding;
        let mut blank = String::new();
        push_char_repeat(&mut blank, ' ', max_letters);
        pad_strings(&mut meta_lines, height, &blank);
        let content_width = if self.content_cell.len() > 0 { self.content_cell[0].config.max_letters_per_line } else { 0 };
        let mut content_blank = String::new();
        push_char_repeat(&mut content_blank, ' ', content_width);
        let pc = pad_columns(&cols, height, &content_blank);
        let border = card_border(&self.content_cell, padding, meta_width, self.config.horizontal_border_style.as_str());
        let mut result = String::new();
        result.push_str(border.as_str());
        push_card_rows(&mut result, &meta_lines, &pc, height, &self.config.vertical_border_style, padding, meta_width);
        result.push_str(border.as_str());
        result
    }
}

/// Every column is no taller than the tallest.
proof fn lemma_max_height(cols: Seq<Seq<Seq<char>>>, k: int)
    requires
        0 <= k < cols.len(),
    ensures
        cols[k].len() <= max_height(cols),
    decreases cols.len(),
{
    if k < cols.len() - 1 {
        lemma_max_height(cols.drop_last(), k);
    }
}


/// A list of cards, drawn one under another.
pub struct ContentTable {
    pub data: Vec<ContentTableCell>,
    pub config: ContentTableConfig,
}

/// The settings `ContentTableConfig::default` gives.
pub open spec fn is_default_table_config(c: ContentTableConfig) -> bool {
    c.row_separator@ == seq!['*'] && c.distance_between_rows == 1 && c.window_width == 700 && c.window_height == 600
}

/// The text of the cards, each followed by a newline, a separator line as wide as
/// the window and a blank line.
pub open spec fn cards_text(cards: Seq<ContentTableCell>, sep: Seq<char>, width: nat) -> Seq<char>
    decreases cards.len(),
{
    if cards.len() == 0 {
        Seq::empty()
    } else {
        cards_text(cards.drop_last(), sep, width) + card_rendered(cards.last()) + seq!['\n'] + repeat(sep, width)
            + seq!['\n', '\n']
    }
}

/// The text of a table: its cards, then a right-aligned `...showing <n> data`.
pub open spec fn table_rendered(t: ContentTable) -> Seq<char> {
    let width = t.config.window_width as nat;
    cards_text(t.data@, t.config.row_separator@, width)
        + aligned("...showing "@ + decimal(t.data.len() as nat) + " data"@, AllignmentType::RIGHT, width, ' ')
}

impl ContentTable {
    /// A table of the given cards; without settings it takes the default ones.
    pub fn new(contents: Vec<ContentTableCell>, config: Option<ContentTableConfig>) -> (t: Self)
        ensures
            t.data == contents,
            match config {
                Some(cfg) => t.config == cfg,
                None => is_default_table_config(t.config),
            },
    {
        let config = match config {
            Some(cfg) => cfg,
            None => ContentTableConfig::default(),
        };
        ContentTable { data: contents, config }
    }
}

impl Render for ContentTable {
    /// Whether the table can be drawn: each of its cards can.
    open spec fn renderable(&self) -> bool {
        forall|k: int| 0 <= k < self.data.len() ==> (#[trigger] self.data@[k]).renderable()
    }

    /// The text of the table.
    #[verifier::spinoff_prover]
    #[verifier::rlimit(40)]
    fn render(&self) -> (r: String)
        ensures
            r@ == table_rendered(*self),
    {
        let width = self.config.window_width as usize;
        let mut result = String::new();
        let mut k: usize = 0;
        while k < self.data.len()
            invariant
                k <= self.data.len(),
                width == self.config.window_width as usize,
                forall|m: int| 0 <= m < self.data.len() ==> (#[trigger] self.data@[m]).renderable(),
                result@ == cards_text(self.data@.take(k as int), self.config.row_separator@, width as nat),
            decreases self.data.len() - k,
        {
            assert(self.data@.take(k + 1).drop_last() =~= self.data@.take(k as int));
            assert(self.data@[k as int].renderable());
            let card = self.data[k].render();
            result.push_str(card.as_str());
            result.push('\n');
            push_repeat(&mut result, self.config.row_separator.as_str(), width);
            result.push('\n');
            result.push('\n');
            k = k + 1;
            assert(result@ =~= cards_text(self.data@.take(k as int), self.config.row_separator@, width as nat));
        }
        assert(self.data@.take(k as int) =~= self.data@);
        let mut note = String::new();
        note.push_str("...showing ");
        let count = usize_to_string(self.data.len());
        note.push_str(count.as_str());
        note.push_str(" data");
        let tail = alignText(note.as_str(), &AllignmentType::RIGHT, width, ' ');
        result.push_str(tail.as_str());
        result
    }
}

/// A copy of a colour.
fn copy_color(c: &Color) -> (r: Color)
    ensures
        r == *c,
{
    match c {
        Color::RGB(a, b, d) => Color::RGB(*a, *b, *d),
        Color::HEX(h) => Color::HEX(h.clone()),
        Color::RGBA(a, b, d) => Color::RGBA(*a, *b, *d),
        Color::TRANSPARENT => Color::TRANSPARENT,
        Color::DEFAULT => Color::DEFAULT,
        Color::RANDOM => Color::RANDOM,
    }
}

/// The settings `base` with the line width set to `width`.
pub open spec fn with_line_width(base: ContentCellConfig, width: usize) -> ContentCellConfig {
    ContentCellConfig { max_letters_per_line: width, ..base }
}

/// `a - b` for 16-bit values, or 0 when `b > a`.
pub open spec fn sat_sub16(a: u16, b: u16) -> u16 {
    if a > b { (a - b) as u16 } else { 0 }
}

/// The line width each content column of a card gets: the window width less the
/// metadata column and the padding, shared among the columns (in 16-bit arithmetic,
/// as the window size is given).
pub open spec fn individual_width(window_width: u16, meta_max: usize, padding: usize, n: nat) -> u16 {
    let mtd_width = meta_max + padding;
    let gaps = 2 * ((1 + n) * padding);
    (sat_sub16(sat_sub16(window_width, mtd_width as u16), gaps as u16) / (n as u16)) as u16
}

/// The content settings a table is built with: the given ones or the defaults.
pub open spec fn base_content_config(c: Option<ContentCellConfig>) -> ContentCellConfig {
    match c {
        Some(cfg) => cfg,
        None => default_content_cell_config(),
    }
}

/// The padding a table is built with: that of the given card settings or 2.
pub open spec fn base_padding(c: Option<ContentTableCellConfig>) -> usize {
    match c {
        Some(cfg) => cfg.padding,
        None => 2,
    }
}

/// The contents of a card can be laid out in the window: the widths are `usize`
/// values and the card has at least one content column, counted in 16 bits.
pub open spec fn layout_fits(meta: MetaDataCell, n: nat, padding: usize) -> bool {
    &&& meta.config.max_letters + padding <= usize::MAX
    &&& n < usize::MAX
    &&& 2 * ((1 + n) * padding) <= usize::MAX
    &&& (n as u16) != 0
}

/// The card built from one metadata column and its content texts.
pub open spec fn built_card(
    meta: MetaDataCell,
    texts: Seq<String>,
    cell_config: Option<ContentTableCellConfig>,
    content_config: Option<ContentCellConfig>,
    window_width: u16,
    c: ContentTableCell,
) -> bool {
    let padding = base_padding(cell_config);
    let iw = individual_width(window_width, meta.config.max_letters, padding, texts.len());
    &&& c.meta_data == meta
    &&& c.content_cell.len() == texts.len()
    &&& forall|k: int| 0 <= k < texts.len() ==> (#[trigger] c.content_cell@[k]).content == texts[k]
        && c.content_cell@[k].config == with_line_width(base_content_config(content_config), iw as usize)
    &&& match cell_config {
        Some(cfg) => c.config == cfg,
        None => is_default_cell_config(c.config),
    }
}

/// A copy of a content configuration.
fn copy_content_config(c: &ContentCellConfig) -> (r: ContentCellConfig)
    ensures
        r == *c,
{
    ContentCellConfig {
        content_allignment: c.content_allignment,
        word_allignment: c.word_allignment,
        max_letters_per_line: c.max_letters_per_line,
        max_letters: c.max_letters,
        max_lines: c.max_lines,
        content_color: copy_color(&c.content_color),
    }
}

impl ContentTable {
    /// Builds a table for a window of the given size: each card gets its metadata
    /// column and one content column per text, the content columns sharing the width
    /// the window leaves.
    pub fn build_relative_window(
        contents: Vec<(MetaDataCell, Vec<String>)>,
        table_config: Option<ContentTableConfig>,
        configs: (Option<ContentTableCellConfig>, Option<ContentCellConfig>),
        window_width: u16,
        window_height: u16,
    ) -> (t: Self)
        requires
            forall|k: int| 0 <= k < contents.len() ==> layout_fits((#[trigger] contents@[k]).0,
                contents@[k].1.len() as nat, base_padding(configs.0)),
        ensures
            t.data.len() == contents.len(),
            forall|k: int| 0 <= k < contents.len() ==> built_card((#[trigger] contents@[k]).0,
                contents@[k].1@, configs.0, configs.1, window_width, t.data@[k]),
            t.config.window_width == window_width,
            t.config.window_height == window_height,
            match table_config {
                Some(cfg) => t.config.row_separator == cfg.row_separator
                    && t.config.distance_between_rows == cfg.distance_between_rows,
                None => t.config.row_separator@ == seq!['*'] && t.config.distance_between_rows == 1,
            },
    {
        let padding = match &configs.0 {
            Some(cfg) => cfg.padding,
            None => ContentTableCellConfig::default().padding,
        };
        let base = match &configs.1 {
            Some(cfg) => copy_content_config(cfg),
            None => ContentCellConfig::default(),
        };
        let ghost orig = contents@;
        let mut contents = contents;
        let mut data: Vec<ContentTableCell> = Vec::new();
        while contents.len() > 0
            invariant
                data.len() + contents.len() == orig.len(),
                contents@ == orig.skip(data.len() as int),
                padding == base_padding(configs.0),
                base == base_content_config(configs.1),
                forall|k: int| 0 <= k < orig.len() ==> layout_fits((#[trigger] orig[k]).0,
                    orig[k].1.len() as nat, padding),
                forall|k: int| 0 <= k < data.len() ==> built_card((#[trigger] orig[k]).0,
                    orig[k].1@, configs.0, configs.1, window_width, data@[k]),
            decreases contents.len(),
        {
            let ghost k = data.len() as int;
            assert(orig[k] == contents@[0]);
            let (mtd, ctd) = contents.remove(0);
            assert(contents@ =~= orig.skip(k + 1));
            assert(mtd == orig[k].0 && ctd == orig[k].1);
            assert(layout_fits(mtd, ctd.len() as nat, padding));
            assert((1 + ctd.len()) * padding <= usize::MAX) by (nonlinear_arith)
                requires
                    2 * ((1 + ctd.len()) * padding) <= usize::MAX;
            let mtd_width = mtd.config.max_letters + padding;
            let num_contents = ctd.len();
            let gaps = 2 * ((1 + num_contents) * padding);
            let w1: u16 = if window_width > mtd_width as u16 { window_width - mtd_width as u16 } else { 0 };
            let w2: u16 = if w1 > gaps as u16 { w1 - gaps as u16 } else { 0 };
            let individual_width: u16 = w2 / (num_contents as u16);
            let mut cells: Vec<ContentCell> = Vec::new();
            let mut m: usize = 0;
            while m < ctd.len()
                invariant
                    m <= ctd.len(),
                    cells.len() == m,
                    base == base_content_config(configs.1),
                    forall|j: int| 0 <= j < m ==> (#[trigger] cells@[j]).content == ctd@[j]
                        && cells@[j].config == with_line_width(base, individual_width as usize),
                decreases ctd.len() - m,
            {
                let mut cfg = copy_content_config(&base);
                cfg.max_letters_per_line = individual_width as usize;
                cells.push(ContentCell::new(ctd[m].clone(), Some(cfg)));
                m = m + 1;
            }
            let cell_config = match &configs.0 {
                Some(cfg) => Some(copy_cell_config(cfg)),
                None => None,
            };
            let card = ContentTableCell::new(mtd, cells, cell_config);
            data.push(card);
        }
        let mut config = match table_config {
            Some(cfg) => cfg,
            None => ContentTableConfig::default(),
        };
        config.window_width = window_width;
        config.window_height = window_height;
        ContentTable { data, config }
    }
}

} // verus!

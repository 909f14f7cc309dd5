//! The line structure of a rendered card: a rule, one line per row between the
//! vertical borders, and the rule again.
use vstd::prelude::*;

use crate::text::{lines, lines_fold, repeat, strip_cr};
use crate::views::content_viewer::{
    card_rendered, card_row, card_rows, cols_text, column_lines, content_borders, max_height, meta_rendered,
    pad_lines, ContentTableCell,
};
use crate::views::utils::{fill, sat_sub};

verus! {

/// `s` holds no newline.
pub open spec fn no_newline(s: Seq<char>) -> bool {
    forall|i: int| 0 <= i < s.len() ==> s[i] != '\n'
}

/// `s` holds no newline and does not end with a carriage return, so a line that
/// ends with it keeps it whole.
pub open spec fn no_line_break(s: Seq<char>) -> bool {
    &&& no_newline(s)
    &&& (s.len() == 0 || s.last() != '\r')
}

proof fn lemma_no_newline_add(a: Seq<char>, b: Seq<char>)
    requires
        no_newline(a),
        no_newline(b),
    ensures
        no_newline(a + b),
{
    assert forall|i: int| 0 <= i < (a + b).len() implies (a + b)[i] != '\n' by {
        if i >= a.len() {
            assert((a + b)[i] == b[i - a.len()]);
        }
    }
}

proof fn lemma_no_line_break_add(a: Seq<char>, b: Seq<char>)
    requires
        no_line_break(a),
        no_line_break(b),
    ensures
        no_line_break(a + b),
{
    lemma_no_newline_add(a, b);
    if b.len() == 0 {
        assert(a + b =~= a);
    } else {
        assert((a + b).last() == b.last());
    }
}

proof fn lemma_repeat_no_line_break(s: Seq<char>, n: nat)
    requires
        no_line_break(s),
    ensures
        no_line_break(repeat(s, n)),
    decreases n,
{
    if n > 0 {
        lemma_repeat_no_line_break(s, (n - 1) as nat);
        lemma_no_line_break_add(repeat(s, (n - 1) as nat), s);
    }
}

/// Scanning text without a newline only extends the current line.
proof fn lemma_fold_plain(p: Seq<char>, s: Seq<char>)
    requires
        no_newline(s),
    ensures
        lines_fold(p + s).0 == lines_fold(p).0,
        lines_fold(p + s).1 == lines_fold(p).1 + s,
    decreases s.len(),
{
    if s.len() == 0 {
        assert(p + s =~= p);
        assert(lines_fold(p).1 + s =~= lines_fold(p).1);
    } else {
        let s0 = s.drop_last();
        lemma_fold_plain(p, s0);
        assert((p + s).drop_last() =~= p + s0);
        assert((p + s).last() == s.last());
        assert((lines_fold(p).1 + s0).push(s.last()) =~= lines_fold(p).1 + s);
    }
}

/// Scanning a line and its newline closes the current line.
proof fn lemma_fold_line(p: Seq<char>, s: Seq<char>)
    requires
        no_newline(s),
    ensures
        lines_fold(p + s + seq!['\n']).0 == lines_fold(p).0.push(strip_cr(lines_fold(p).1 + s)),
        lines_fold(p + s + seq!['\n']).1 == Seq::<char>::empty(),
{
    lemma_fold_plain(p, s);
    let x = p + s + seq!['\n'];
    assert(x.drop_last() =~= p + s);
    assert(x.last() == '\n');
}

/// The lines found by a scan hold no newline.
proof fn lemma_fold_clean(s: Seq<char>)
    ensures
        no_newline(lines_fold(s).1),
        forall|j: int| 0 <= j < lines_fold(s).0.len() ==> no_newline(#[trigger] lines_fold(s).0[j]),
    decreases s.len(),
{
    if s.len() > 0 {
        lemma_fold_clean(s.drop_last());
        let (l, cur) = lines_fold(s.drop_last());
        if s.last() == '\n' {
            let sc = strip_cr(cur);
            assert(no_newline(sc)) by {
                assert forall|i: int| 0 <= i < sc.len() implies sc[i] != '\n' by {
                    assert(sc[i] == cur[i]);
                }
            }
            assert forall|j: int| 0 <= j < l.push(sc).len() implies no_newline(#[trigger] l.push(sc)[j]) by {
                if j < l.len() {
                    assert(l.push(sc)[j] == l[j]);
                }
            }
        } else {
            assert(no_newline(cur.push(s.last()))) by {
                assert forall|i: int| 0 <= i < cur.push(s.last()).len() implies cur.push(s.last())[i] != '\n' by {
                    if i < cur.len() {
                        assert(cur.push(s.last())[i] == cur[i]);
                    }
                }
            }
        }
    }
}

/// The lines of a text hold no newline.
pub proof fn lemma_lines_clean(s: Seq<char>)
    ensures
        forall|j: int| 0 <= j < lines(s).len() ==> no_newline(#[trigger] lines(s)[j]),
{
    lemma_fold_clean(s);
    let (l, cur) = lines_fold(s);
    assert forall|j: int| 0 <= j < lines(s).len() implies no_newline(#[trigger] lines(s)[j]) by {
        if j < l.len() {
            assert(lines(s)[j] == l[j]);
        }
    }
}

/// The rule above and below a card, without its newline.
pub open spec fn card_rule(c: ContentTableCell) -> Seq<char> {
    let padding = c.config.padding as nat;
    let meta_width = c.meta_data.config.max_letters as nat + padding;
    let horiz = c.config.horizontal_border_style@;
    fill(' ', padding) + repeat(horiz, meta_width) + fill(' ', padding) + content_borders(
        c.content_cell@,
        padding,
        horiz,
    )
}

/// The number of rows of a card: the lines of its tallest column.
pub open spec fn card_height(c: ContentTableCell) -> nat {
    let meta = lines(meta_rendered(c.meta_data));
    let cols = column_lines(c.content_cell@);
    if meta.len() > max_height(cols) {
        meta.len()
    } else {
        max_height(cols)
    }
}

/// Row `i` of a card without its newline.
pub open spec fn row_body(
    pm: Seq<Seq<char>>,
    pc: Seq<Seq<Seq<char>>>,
    i: int,
    vert: Seq<char>,
    padding: nat,
    meta_width: nat,
) -> Seq<char> {
    vert + fill(' ', padding) + pm[i] + fill(' ', sat_sub(meta_width as int, pm[i].len() as int)) + vert + fill(
        ' ',
        padding,
    ) + cols_text(pc, i, pc.len() as int, vert, padding) + vert
}

proof fn lemma_fill_clean(c: char, n: nat)
    requires
        c != '\n',
        c != '\r',
    ensures
        no_line_break(fill(c, n)),
{
    if n > 0 {
        assert(fill(c, n).last() == c);
    }
}

proof fn lemma_content_borders_clean(cells: Seq<crate::views::content_viewer::ContentCell>, padding: nat, horiz: Seq<char>)
    requires
        no_line_break(horiz),
    ensures
        no_line_break(content_borders(cells, padding, horiz)),
    decreases cells.len(),
{
    if cells.len() > 0 {
        lemma_content_borders_clean(cells.drop_last(), padding, horiz);
        lemma_repeat_no_line_break(horiz, cells.last().config.max_letters_per_line as nat);
        lemma_no_line_break_add(content_borders(cells.drop_last(), padding, horiz), fill(' ', 2 * padding));
        lemma_no_line_break_add(
            content_borders(cells.drop_last(), padding, horiz) + fill(' ', 2 * padding),
            repeat(horiz, cells.last().config.max_letters_per_line as nat),
        );
    }
}

proof fn lemma_cols_text_clean(pc: Seq<Seq<Seq<char>>>, i: int, k: int, vert: Seq<char>, padding: nat)
    requires
        k <= pc.len(),
        no_newline(vert),
        forall|j: int| 0 <= j < pc.len() ==> no_newline(#[trigger] pc[j][i]),
    ensures
        no_newline(cols_text(pc, i, k, vert, padding)),
    decreases k,
{
    if k > 0 {
        lemma_cols_text_clean(pc, i, k - 1, vert, padding);
        let n = pc.len();
        let prev = cols_text(pc, i, k - 1, vert, padding);
        assert(no_newline(pc[k - 1][i]));
        lemma_no_newline_add(prev, vert);
        lemma_no_newline_add(prev + vert, pc[k - 1][i]);
        let tail = if n > 1 && k - 1 < n - 1 {
            vert + fill(' ', padding)
        } else {
            Seq::empty()
        };
        lemma_no_newline_add(vert, fill(' ', padding));
        lemma_no_newline_add(prev + vert + pc[k - 1][i], tail);
    }
}

/// Scanning the rows of a card after text that ends a line gives one line per row.
proof fn lemma_rows_fold(
    b: Seq<char>,
    pm: Seq<Seq<char>>,
    pc: Seq<Seq<Seq<char>>>,
    k: int,
    vert: Seq<char>,
    padding: nat,
    meta_width: nat,
)
    requires
        0 <= k,
        lines_fold(b).1 == Seq::<char>::empty(),
        forall|i: int| 0 <= i < k ==> no_newline(#[trigger] row_body(pm, pc, i, vert, padding, meta_width)),
    ensures
        lines_fold(b + card_rows(pm, pc, k, vert, padding, meta_width)).1 == Seq::<char>::empty(),
        lines_fold(b + card_rows(pm, pc, k, vert, padding, meta_width)).0 == lines_fold(b).0 + Seq::new(
            k as nat,
            |i: int| strip_cr(row_body(pm, pc, i, vert, padding, meta_width)),
        ),
    decreases k,
{
    if k == 0 {
        assert(b + card_rows(pm, pc, k, vert, padding, meta_width) =~= b);
        assert(lines_fold(b).0 + Seq::new(0, |i: int| strip_cr(row_body(pm, pc, i, vert, padding, meta_width)))
            =~= lines_fold(b).0);
    } else {
        lemma_rows_fold(b, pm, pc, k - 1, vert, padding, meta_width);
        let prev = b + card_rows(pm, pc, k - 1, vert, padding, meta_width);
        let body = row_body(pm, pc, k - 1, vert, padding, meta_width);
        assert(card_row(pm, pc, k - 1, vert, padding, meta_width) =~= body + seq!['\n']);
        assert(b + card_rows(pm, pc, k, vert, padding, meta_width) =~= prev + body + seq!['\n']);
        assert(no_newline(body));
        lemma_fold_line(prev, body);
        assert(lines_fold(prev).1 + body =~= body);
        assert(lines_fold(b).0 + Seq::new(k as nat, |i: int| strip_cr(row_body(pm, pc, i, vert, padding, meta_width)))
            =~= (lines_fold(b).0 + Seq::new(
            (k - 1) as nat,
            |i: int| strip_cr(row_body(pm, pc, i, vert, padding, meta_width)),
        )).push(strip_cr(body)));
    }
}

/// A rendered card whose border styles hold no newline and do not end with a
/// carriage return has `card_height(c) + 2`
/// lines and ends with a newline: the rule, one line per row, and the rule again;
/// every row line starts and ends with the vertical border.
pub proof fn law_card_lines(c: ContentTableCell)
    requires
        no_line_break(c.config.horizontal_border_style@),
        no_line_break(c.config.vertical_border_style@),
    ensures
        ({
            let ls = lines(card_rendered(c));
            let h = card_height(c);
            let vb = c.config.vertical_border_style@;
            &&& ls.len() == h + 2
            &&& ls[0] == card_rule(c)
            &&& ls[h + 1int] == card_rule(c)
            &&& forall|i: int| 1 <= i <= h ==> (#[trigger] ls[i]).len() >= vb.len() && ls[i].take(vb.len() as int)
                == vb && ls[i].skip(ls[i].len() - vb.len()) == vb
        }),
        card_rendered(c).last() == '\n',
{
    let meta = lines(meta_rendered(c.meta_data));
    let cols = column_lines(c.content_cell@);
    let height = card_height(c);
    let padding = c.config.padding as nat;
    let max_letters = c.meta_data.config.max_letters as nat;
    let meta_width = max_letters + padding;
    let pm = pad_lines(meta, height, fill(' ', max_letters));
    let content_width = if c.content_cell.len() > 0 {
        c.content_cell@[0].config.max_letters_per_line as nat
    } else {
        0
    };
    let pc = cols.map_values(|col: Seq<Seq<char>>| pad_lines(col, height, fill(' ', content_width)));
    let horiz = c.config.horizontal_border_style@;
    let vert = c.config.vertical_border_style@;
    let b0 = card_rule(c);
    let border = b0 + seq!['\n'];
    let rows = card_rows(pm, pc, height as int, vert, padding, meta_width);
    assert(card_rendered(c) == border + rows + border);

    // the rule holds no line break
    lemma_fill_clean(' ', padding);
    lemma_repeat_no_line_break(horiz, meta_width);
    lemma_content_borders_clean(c.content_cell@, padding, horiz);
    lemma_no_line_break_add(fill(' ', padding), repeat(horiz, meta_width));
    lemma_no_line_break_add(fill(' ', padding) + repeat(horiz, meta_width), fill(' ', padding));
    lemma_no_line_break_add(
        fill(' ', padding) + repeat(horiz, meta_width) + fill(' ', padding),
        content_borders(c.content_cell@, padding, horiz),
    );
    assert(no_line_break(b0));
    assert(strip_cr(b0) == b0);

    // every row holds no newline
    lemma_lines_clean(meta_rendered(c.meta_data));
    assert forall|i: int| 0 <= i < height implies no_newline(#[trigger] row_body(pm, pc, i, vert, padding, meta_width)) by {
        assert(no_newline(pm[i])) by {
            if i < meta.len() {
                assert(pm[i] == meta[i]);
            }
        }
        assert forall|j: int| 0 <= j < pc.len() implies no_newline(#[trigger] pc[j][i]) by {
            let col = cols[j];
            lemma_lines_clean(crate::views::content_viewer::content_rendered(
                c.content_cell@[j].content@,
                c.content_cell@[j].config,
            ));
            assert(col == lines(crate::views::content_viewer::content_rendered(
                c.content_cell@[j].content@,
                c.content_cell@[j].config,
            )));
            assert(pc[j] == pad_lines(col, height, fill(' ', content_width)));
            if i < col.len() {
                assert(pc[j][i] == col[i]);
            }
        }
        lemma_cols_text_clean(pc, i, pc.len() as int, vert, padding);
        let gap = fill(' ', sat_sub(meta_width as int, pm[i].len() as int));
        lemma_no_newline_add(vert, fill(' ', padding));
        lemma_no_newline_add(vert + fill(' ', padding), pm[i]);
        lemma_no_newline_add(vert + fill(' ', padding) + pm[i], gap);
        lemma_no_newline_add(vert + fill(' ', padding) + pm[i] + gap, vert);
        lemma_no_newline_add(vert + fill(' ', padding) + pm[i] + gap + vert, fill(' ', padding));
        lemma_no_newline_add(
            vert + fill(' ', padding) + pm[i] + gap + vert + fill(' ', padding),
            cols_text(pc, i, pc.len() as int, vert, padding),
        );
        lemma_no_newline_add(
            vert + fill(' ', padding) + pm[i] + gap + vert + fill(' ', padding) + cols_text(
                pc,
                i,
                pc.len() as int,
                vert,
                padding,
            ),
            vert,
        );
    }

    // scan: rule, rows, rule
    assert(lines_fold(Seq::<char>::empty()).0 == Seq::<Seq<char>>::empty());
    assert(Seq::<char>::empty() + b0 + seq!['\n'] =~= border);
    lemma_fold_line(Seq::empty(), b0);
    assert(Seq::<char>::empty() + b0 =~= b0);
    lemma_rows_fold(border, pm, pc, height as int, vert, padding, meta_width);
    let mid = border + rows;
    assert(card_rendered(c) =~= mid + b0 + seq!['\n']);
    lemma_fold_line(mid, b0);
    assert(lines_fold(mid).1 + b0 =~= b0);
    let body_lines = Seq::new(height, |i: int| strip_cr(row_body(pm, pc, i, vert, padding, meta_width)));
    let ls = lines(card_rendered(c));
    assert(ls == (seq![b0] + body_lines).push(b0));

    assert forall|i: int| 1 <= i <= height implies (#[trigger] ls[i]).len() >= vert.len() && ls[i].take(
        vert.len() as int,
    ) == vert && ls[i].skip(ls[i].len() - vert.len()) == vert by {
        let body = row_body(pm, pc, i - 1, vert, padding, meta_width);
        assert(ls[i] == strip_cr(body));
        if vert.len() > 0 {
            assert(body.last() == vert.last());
            assert(strip_cr(body) == body);
            let front = fill(' ', padding) + pm[i - 1] + fill(' ', sat_sub(meta_width as int, pm[i - 1].len() as int))
                + vert + fill(' ', padding) + cols_text(pc, i - 1, pc.len() as int, vert, padding) + vert;
            assert(body =~= vert + front);
            assert(body.take(vert.len() as int) =~= vert);
            let back = vert + fill(' ', padding) + pm[i - 1] + fill(
                ' ',
                sat_sub(meta_width as int, pm[i - 1].len() as int),
            ) + vert + fill(' ', padding) + cols_text(pc, i - 1, pc.len() as int, vert, padding);
            assert(body =~= back + vert);
            assert(body.skip(body.len() - vert.len()) =~= vert);
        } else {
            assert(ls[i].take(0) =~= vert);
            assert(ls[i].skip(ls[i].len() as int) =~= vert);
        }
    }
}

} // verus!

//! The boxed menu drawn around a rendered table: a centred title, a
//! divider, and one boxed line per table row. The box width follows the
//! title and the table's first line; longer lines are padded with `+`
//! fillers only as far as that width allows.

use vstd::prelude::*;

use crate::strutil::{
    find_char, find_char_at, push_char, push_repeat, repeat_char, split_char, split_chars,
    str_chars, views_of,
};
use crate::table::{spec_render_table, render_table, Table, CellModel};

verus! {

/// A table under a boxed title.
#[derive(Debug)]
pub struct TableMenu {
    pub title: String,
    pub table: Table,
}

/// One boxed table line: `│  line fillers  │`; a line wider than the box
/// gets no fillers.
pub open spec fn boxed_line(l: Seq<char>, max_length: nat) -> Seq<char> {
    seq!['│', ' ', ' '] + l + repeat_char(
        '+',
        if l.len() <= max_length {
            (max_length - l.len()) as nat
        } else {
            0
        },
    ) + seq![' ', ' ', '│', '\n']
}

/// The boxed lines of the rendered table from piece `i` on; empty pieces
/// are skipped.
pub open spec fn boxed_lines(pieces: Seq<Seq<char>>, i: int, max_length: nat) -> Seq<char>
    decreases pieces.len() - i,
{
    if !(0 <= i < pieces.len()) {
        Seq::<char>::empty()
    } else if pieces[i].len() == 0 {
        boxed_lines(pieces, i + 1, max_length)
    } else {
        boxed_line(pieces[i], max_length) + boxed_lines(pieces, i + 1, max_length)
    }
}

/// The width the box is laid out for: the longer of the title and the
/// rendered table's first line.
pub open spec fn table_menu_width(title: Seq<char>, tb: Seq<char>) -> nat {
    let f = find_char(tb, '\n');
    let first = if 0 <= f <= tb.len() {
        tb.take(f)
    } else {
        tb
    };
    if first.len() > title.len() {
        first.len()
    } else {
        title.len()
    }
}

/// The whole rendered menu: top border, centred title, divider, each
/// nonempty table line boxed, bottom border.
pub open spec fn spec_table_menu_text(title: Seq<char>, t: Seq<Seq<CellModel>>) -> Seq<char> {
    let tb = spec_render_table(t);
    let max_length = table_menu_width(title, tb);
    let min_width: nat = if max_length + 4 <= usize::MAX {
        (max_length + 4) as nat
    } else {
        usize::MAX as nat
    };
    let padding = min_width - title.len();
    seq!['┌'] + repeat_char('─', min_width) + seq!['┐', '\n'] + seq!['│'] + repeat_char(
        ' ',
        (padding / 2) as nat,
    ) + title + repeat_char(' ', ((padding + 1) / 2) as nat) + seq!['│', '\n'] + seq!['├']
        + repeat_char('─', min_width) + seq!['┤', '\n'] + boxed_lines(
        split_char(tb, '\n'),
        0,
        max_length,
    ) + seq!['└'] + repeat_char('─', min_width) + seq!['┘', '\n']
}

impl TableMenu {
    /// A menu of the given title and table.
    pub fn new(title: String, table: Table) -> (r: TableMenu)
        ensures
            r.title == title,
            r.table == table,
    {
        TableMenu { title, table }
    }

    /// The menu's table, for in-place edits such as the selection marker.
    pub fn table_mut(&mut self) -> (r: &mut Table)
        ensures
            *r == old(self).table,
            final(self).table == *final(r),
            final(self).title == old(self).title,
    {
        &mut self.table
    }

    /// The rendered menu text.
    #[verifier::rlimit(100)]
    pub fn render(&self) -> (r: String)
        ensures
            r@ == spec_table_menu_text(self.title@, self.table@),
    {
        let ghost title = self.title@;
        let ghost tm = self.table@;
        let mut table_buffer = String::new();
        render_table(&self.table, &mut table_buffer);
        let ghost tb = spec_render_table(tm);
        proof {
            assert(table_buffer@ =~= tb);
        }
        let tchars = str_chars(table_buffer.as_str());
        let f = find_char_at(tchars.as_slice(), '\n');
        proof {
            crate::strutil::lemma_find_char(tb, '\n');
        }
        let first_len: usize = f;
        proof {
            assert(tb.take(f as int).len() == f as nat);
        }
        let title_len: usize = self.title.as_str().unicode_len();
        let max_length: usize = if first_len > title_len {
            first_len
        } else {
            title_len
        };
        proof {
            assert(max_length as nat == table_menu_width(title, tb));
        }
        let min_width: usize = if max_length <= usize::MAX - 4 {
            max_length + 4
        } else {
            usize::MAX
        };
        let padding: usize = min_width - title_len;
        let mut r = String::new();
        push_char(&mut r, '┌');
        push_repeat(&mut r, '─', min_width);
        push_char(&mut r, '┐');
        push_char(&mut r, '\n');
        push_char(&mut r, '│');
        push_repeat(&mut r, ' ', padding / 2);
        r.append(self.title.as_str());
        let ceil_half: usize = padding / 2 + padding % 2;
        proof {
            assert(ceil_half as nat == ((padding + 1) / 2) as nat);
        }
        push_repeat(&mut r, ' ', ceil_half);
        push_char(&mut r, '│');
        push_char(&mut r, '\n');
        push_char(&mut r, '├');
        push_repeat(&mut r, '─', min_width);
        push_char(&mut r, '┤');
        push_char(&mut r, '\n');
        let pieces = split_chars(tchars.as_slice(), '\n');
        let ghost pv = views_of(pieces@);
        let npieces: usize = pieces.len();
        let ghost head = r@;
        let mut i: usize = 0;
        proof {
            assert(head + Seq::<char>::empty() =~= head);
        }
        while i < npieces
            invariant
                i <= npieces,
                npieces == pv.len(),
                pv == views_of(pieces@),
                pv == split_char(tb, '\n'),
                head + boxed_lines(pv, 0, max_length as nat) == r@ + boxed_lines(
                    pv,
                    i as int,
                    max_length as nat,
                ),
            decreases npieces - i,
        {
            let piece = &pieces[i];
            if piece.len() > 0 {
                push_char(&mut r, '│');
                push_char(&mut r, ' ');
                push_char(&mut r, ' ');
                let mut k: usize = 0;
                let ghost mid = r@;
                while k < piece.len()
                    invariant
                        k <= piece@.len(),
                        piece == &pieces@[i as int],
                        i < pieces@.len(),
                        r@ == mid + piece@.subrange(0, k as int),
                    decreases piece@.len() - k,
                {
                    push_char(&mut r, piece[k]);
                    k = k + 1;
                    proof {
                        assert(r@ =~= mid + piece@.subrange(0, k as int));
                    }
                }
                proof {
                    assert(piece@.subrange(0, piece@.len() as int) =~= piece@);
                }
                let fillers: usize = if piece.len() <= max_length {
                    max_length - piece.len()
                } else {
                    0
                };
                push_repeat(&mut r, '+', fillers);
                push_char(&mut r, ' ');
                push_char(&mut r, ' ');
                push_char(&mut r, '│');
                push_char(&mut r, '\n');
                proof {
                    assert(boxed_lines(pv, i as int, max_length as nat) == boxed_line(
                        pv[i as int],
                        max_length as nat,
                    ) + boxed_lines(pv, i + 1, max_length as nat));
                    assert(head + boxed_lines(pv, 0, max_length as nat) =~= r@ + boxed_lines(
                        pv,
                        i + 1,
                        max_length as nat,
                    ));
                }
            } else {
                proof {
                    assert(boxed_lines(pv, i as int, max_length as nat) == boxed_lines(
                        pv,
                        i + 1,
                        max_length as nat,
                    ));
                }
            }
            i = i + 1;
        }
        proof {
            assert(boxed_lines(pv, npieces as int, max_length as nat) =~= Seq::<char>::empty());
            assert(r@ =~= head + boxed_lines(pv, 0, max_length as nat));
        }
        push_char(&mut r, '└');
        push_repeat(&mut r, '─', min_width);
        push_char(&mut r, '┘');
        push_char(&mut r, '\n');
        proof {
            assert(r@ =~= spec_table_menu_text(title, tm));
        }
        r
    }
}

} // verus!

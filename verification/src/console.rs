//! The simple boxed menu panel: a centred title over a list of entries,
//! drawn with box-drawing characters.

use vstd::prelude::*;

use crate::strutil::{push_char, push_repeat, repeat_char};

verus! {

/// A titled list of entry lines, rendered as a boxed panel.
#[derive(Debug)]
pub struct Menu {
    pub title: String,
    pub entries: Vec<String>,
}

/// The entry texts of a menu.
pub open spec fn entry_views(entries: Seq<String>) -> Seq<Seq<char>> {
    entries.map_values(|e: String| e@)
}

/// The longest length among the title and the entries.
pub open spec fn menu_width(title: Seq<char>, entries: Seq<Seq<char>>) -> nat
    decreases entries.len(),
{
    if entries.len() == 0 {
        title.len()
    } else {
        let w = menu_width(title, entries.drop_last());
        if entries.last().len() > w {
            entries.last().len()
        } else {
            w
        }
    }
}

/// One boxed entry line: `│ entry padding │`.
pub open spec fn menu_entry_line(e: Seq<char>, max_length: nat) -> Seq<char> {
    seq!['│', ' '] + e + repeat_char(' ', (max_length - e.len()) as nat) + seq![' ', '│', '\n']
}

/// The boxed entry lines from index `i` on.
pub open spec fn menu_entry_lines(entries: Seq<Seq<char>>, i: int, max_length: nat) -> Seq<char>
    decreases entries.len() - i,
{
    if !(0 <= i < entries.len()) {
        Seq::<char>::empty()
    } else {
        menu_entry_line(entries[i], max_length) + menu_entry_lines(entries, i + 1, max_length)
    }
}

/// The whole rendered panel: top border, centred title, divider, the entry
/// lines, bottom border.
pub open spec fn spec_menu_text(title: Seq<char>, entries: Seq<Seq<char>>) -> Seq<char> {
    let max_length = menu_width(title, entries);
    let min_width: nat = if max_length + 2 <= usize::MAX {
        (max_length + 2) as nat
    } else {
        usize::MAX as nat
    };
    let padding = min_width - title.len();
    seq!['┌'] + repeat_char('─', min_width) + seq!['┐', '\n'] + seq!['│'] + repeat_char(
        ' ',
        (padding / 2) as nat,
    ) + title + repeat_char(' ', ((padding + 1) / 2) as nat) + seq!['│', '\n'] + seq!['├']
        + repeat_char('─', min_width) + seq!['┤', '\n'] + menu_entry_lines(entries, 0, max_length)
        + seq!['└'] + repeat_char('─', min_width) + seq!['┘', '\n']
}

proof fn lemma_menu_width_ge(title: Seq<char>, entries: Seq<Seq<char>>, i: int)
    ensures
        title.len() <= menu_width(title, entries),
        0 <= i < entries.len() ==> entries[i].len() <= menu_width(title, entries),
    decreases entries.len(),
{
    if entries.len() > 0 {
        lemma_menu_width_ge(title, entries.drop_last(), i);
        if 0 <= i < entries.len() - 1 {
            assert(entries.drop_last()[i] == entries[i]);
        }
    }
}

impl Menu {
    /// A menu panel with the given title and entry lines.
    pub fn new(title: String, entries: Vec<String>) -> (r: Menu)
        ensures
            r.title == title,
            r.entries == entries,
    {
        Menu { title, entries }
    }

    /// The rendered panel text.
    #[verifier::rlimit(100)]
    pub fn render(&self) -> (r: String)
        ensures
            r@ == spec_menu_text(self.title@, entry_views(self.entries@)),
    {
        let ghost title = self.title@;
        let ghost ev = entry_views(self.entries@);
        let nentries: usize = self.entries.len();
        let mut max_length: usize = self.title.as_str().unicode_len();
        let mut i: usize = 0;
        proof {
            assert(ev.subrange(0, 0) =~= Seq::<Seq<char>>::empty());
        }
        while i < nentries
            invariant
                i <= nentries,
                nentries == ev.len(),
                ev == entry_views(self.entries@),
                title == self.title@,
                max_length as nat == menu_width(title, ev.subrange(0, i as int)),
            decreases nentries - i,
        {
            let el: usize = self.entries[i].as_str().unicode_len();
            proof {
                assert(ev.subrange(0, i + 1).drop_last() =~= ev.subrange(0, i as int));
                assert(ev.subrange(0, i + 1).last() == ev[i as int]);
                assert(ev[i as int].len() == el as nat);
            }
            if el > max_length {
                max_length = el;
            }
            i = i + 1;
        }
        proof {
            assert(ev.subrange(0, nentries as int) =~= ev);
            assert forall|j: int| 0 <= j < ev.len() implies ev[j].len() <= max_length as nat by {
                lemma_menu_width_ge(title, ev, j);
            }
            lemma_menu_width_ge(title, ev, 0);
        }
        let min_width: usize = if max_length <= usize::MAX - 2 {
            max_length + 2
        } else {
            usize::MAX
        };
        let padding: usize = min_width - self.title.as_str().unicode_len();
        let mut r = String::new();
        push_char(&mut r, '┌');
        push_repeat(&mut r, '─', min_width);
        push_char(&mut r, '┐');
        push_char(&mut r, '\n');
        push_char(&mut r, '│');
        push_repeat(&mut r, ' ', padding / 2);
        r.append(self.title.as_str());
        let ceil_half: usize = padding / 2 + padding % 2;
        proof {
            assert(ceil_half as nat == ((padding + 1) / 2) as nat);
        }
        push_repeat(&mut r, ' ', ceil_half);
        push_char(&mut r, '│');
        push_char(&mut r, '\n');
        push_char(&mut r, '├');
        push_repeat(&mut r, '─', min_width);
        push_char(&mut r, '┤');
        push_char(&mut r, '\n');
        let ghost head = r@;
        let mut i: usize = 0;
        proof {
            assert(head + Seq::<char>::empty() =~= head);
        }
        while i < nentries
            invariant
                i <= nentries,
                nentries == ev.len(),
                ev == entry_views(self.entries@),
                title == self.title@,
                max_length as nat == menu_width(title, ev),
                forall|j: int| 0 <= j < ev.len() ==> ev[j].len() <= max_length,
                head + menu_entry_lines(ev, 0, max_length as nat) == r@ + menu_entry_lines(
                    ev,
                    i as int,
                    max_length as nat,
                ),
            decreases nentries - i,
        {
            push_char(&mut r, '│');
            push_char(&mut r, ' ');
            r.append(self.entries[i].as_str());
            let el: usize = self.entries[i].as_str().unicode_len();
            push_repeat(&mut r, ' ', max_length - el);
            push_char(&mut r, ' ');
            push_char(&mut r, '│');
            push_char(&mut r, '\n');
            proof {
                assert(menu_entry_lines(ev, i as int, max_length as nat) == menu_entry_line(
                    ev[i as int],
                    max_length as nat,
                ) + menu_entry_lines(ev, i + 1, max_length as nat));
                assert(head + menu_entry_lines(ev, 0, max_length as nat) =~= r@
                    + menu_entry_lines(ev, i + 1, max_length as nat));
            }
            i = i + 1;
        }
        proof {
            assert(menu_entry_lines(ev, nentries as int, max_length as nat) =~= Seq::<
                char,
            >::empty());
            assert(r@ =~= head + menu_entry_lines(ev, 0, max_length as nat));
        }
        push_char(&mut r, '└');
        push_repeat(&mut r, '─', min_width);
        push_char(&mut r, '┘');
        push_char(&mut r, '\n');
        proof {
            assert(r@ =~= spec_menu_text(title, ev));
        }
        r
    }
}

} // verus!

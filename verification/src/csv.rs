//! The exported table: one line per recorded point, the time first, then the
//! state's components, each introduced by a comma and a space; no header, no
//! quoting, no alignment.
//!
//! The numbers arrive as text, already formatted by the caller, so that this
//! module decides the layout of the table and nothing about number formats.

use vstd::prelude::*;

verus! {

/// The state's part of a line: every component preceded by `", "`.
pub open spec fn cells_text(cells: Seq<Seq<char>>) -> Seq<char>
    decreases cells.len(),
{
    if cells.len() == 0 {
        Seq::empty()
    } else {
        cells_text(cells.drop_last()) + seq![',', ' '] + cells.last()
    }
}

/// One line of the table: the time, the components, a line feed.
pub open spec fn row_text(time: Seq<char>, cells: Seq<Seq<char>>) -> Seq<char> {
    time + cells_text(cells) + seq!['\n']
}

/// The whole table: the lines of the states in order, the `i`-th state
/// paired with the `i`-th time. Times beyond the last state are not used.
pub open spec fn table_text(times: Seq<Seq<char>>, states: Seq<Seq<Seq<char>>>) -> Seq<char>
    recommends
        states.len() <= times.len(),
    decreases states.len(),
{
    if states.len() == 0 {
        Seq::empty()
    } else {
        table_text(times, states.drop_last()) + row_text(
            times[states.len() - 1],
            states.last(),
        )
    }
}

/// Appends one line of the table to `sink`.
pub fn write_row(time: &String, cells: &Vec<String>, sink: &mut String)
    ensures
        final(sink)@ == old(sink)@ + row_text(time@, cells.deep_view()),
{
    let ghost before = sink@;
    sink.append(time.as_str());
    let mut j: usize = 0;
    while j < cells.len()
        invariant
            j <= cells.len(),
            sink@ == before + time@ + cells_text(cells.deep_view().take(j as int)),
        decreases cells.len() - j,
    {
        proof {
            let upto = cells.deep_view().take(j + 1);
            assert(upto.drop_last() =~= cells.deep_view().take(j as int));
            assert(upto.last() == cells[j as int]@);
        }
        sink.append(", ");
        sink.append(cells[j].as_str());
        proof {
            reveal_strlit(", ");
            assert(", "@ =~= seq![',', ' ']);
        }
        j += 1;
    }
    sink.append("\n");
    proof {
        reveal_strlit("\n");
        assert("\n"@ =~= seq!['\n']);
        assert(cells.deep_view().take(cells.len() as int) =~= cells.deep_view());
    }
}

/// Appends the table of a trajectory to `sink`: for every state, in order,
/// the line made of the time with the same index and of the state's
/// components. What `sink` held before stays in front, unchanged.
pub fn save(times: &Vec<String>, states: &Vec<Vec<String>>, sink: &mut String)
    requires
        states.len() <= times.len(),
    ensures
        final(sink)@ == old(sink)@ + table_text(times.deep_view(), states.deep_view()),
{
    let ghost before = sink@;
    let mut i: usize = 0;
    while i < states.len()
        invariant
            i <= states.len() <= times.len(),
            sink@ == before + table_text(times.deep_view(), states.deep_view().take(i as int)),
        decreases states.len() - i,
    {
        proof {
            let upto = states.deep_view().take(i + 1);
            assert(upto.drop_last() =~= states.deep_view().take(i as int));
            assert(upto.last() == states[i as int].deep_view());
            assert(times.deep_view()[i as int] == times[i as int]@);
        }
        write_row(&times[i], &states[i], sink);
        i += 1;
    }
    proof {
        assert(states.deep_view().take(states.len() as int) =~= states.deep_view());
    }
}

/// The number of line feeds in a text.
pub open spec fn line_feeds(text: Seq<char>) -> nat
    decreases text.len(),
{
    if text.len() == 0 {
        0
    } else {
        line_feeds(text.drop_last()) + if text.last() == '\n' {
            1nat
        } else {
            0nat
        }
    }
}

/// The text holds no line feed.
pub open spec fn single_line(text: Seq<char>) -> bool {
    forall|i: int| 0 <= i < text.len() ==> text[i] != '\n'
}

proof fn lemma_line_feeds_add(a: Seq<char>, b: Seq<char>)
    ensures
        line_feeds(a + b) == line_feeds(a) + line_feeds(b),
    decreases b.len(),
{
    if b.len() == 0 {
        assert(a + b =~= a);
    } else {
        assert((a + b).drop_last() =~= a + b.drop_last());
        lemma_line_feeds_add(a, b.drop_last());
    }
}

proof fn lemma_single_line_has_no_line_feed(text: Seq<char>)
    requires
        single_line(text),
    ensures
        line_feeds(text) == 0,
    decreases text.len(),
{
    if text.len() > 0 {
        lemma_single_line_has_no_line_feed(text.drop_last());
    }
}

proof fn lemma_cells_have_no_line_feed(cells: Seq<Seq<char>>)
    requires
        forall|j: int| 0 <= j < cells.len() ==> single_line(#[trigger] cells[j]),
    ensures
        line_feeds(cells_text(cells)) == 0,
    decreases cells.len(),
{
    if cells.len() > 0 {
        lemma_cells_have_no_line_feed(cells.drop_last());
        lemma_single_line_has_no_line_feed(cells.last());
        let separator = seq![',', ' '];
        assert(single_line(separator));
        lemma_single_line_has_no_line_feed(separator);
        lemma_line_feeds_add(cells_text(cells.drop_last()), separator);
        lemma_line_feeds_add(cells_text(cells.drop_last()) + separator, cells.last());
    }
}

/// The table has one line per state: where no number's text holds a line
/// feed, the table holds as many line feeds as there are states, and it ends
/// with one unless it is empty.
pub proof fn lemma_one_line_per_state(times: Seq<Seq<char>>, states: Seq<Seq<Seq<char>>>)
    requires
        states.len() <= times.len(),
        forall|i: int| 0 <= i < states.len() ==> single_line(#[trigger] times[i]),
        forall|i: int, j: int|
            0 <= i < states.len() && 0 <= j < states[i].len() ==> single_line(
                #[trigger] states[i][j],
            ),
    ensures
        line_feeds(table_text(times, states)) == states.len(),
        states.len() > 0 ==> table_text(times, states).len() > 0 && table_text(
            times,
            states,
        ).last() == '\n',
    decreases states.len(),
{
    if states.len() > 0 {
        let time = times[states.len() - 1];
        let cells = states.last();
        lemma_one_line_per_state(times, states.drop_last());
        lemma_single_line_has_no_line_feed(time);
        assert forall|j: int| 0 <= j < cells.len() implies single_line(#[trigger] cells[j]) by {
            assert(cells[j] == states[states.len() - 1][j]);
        }
        lemma_cells_have_no_line_feed(cells);
        let feed = seq!['\n'];
        assert(feed.len() == 1 && feed.last() == '\n');
        assert(line_feeds(feed.drop_last()) == 0);
        assert(line_feeds(feed) == 1);
        lemma_line_feeds_add(time, cells_text(cells));
        lemma_line_feeds_add(time + cells_text(cells), feed);
        lemma_line_feeds_add(table_text(times, states.drop_last()), row_text(time, cells));
    }
}

} // verus!

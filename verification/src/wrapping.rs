//! How well text is wrapped.
//!
//! The lines of a wrapped text are as few as any way of setting its words could
//! make them, and no word that fits a line is ever cut.

use crate::document::fill;
use crate::document::total_len;
use crate::document::wrapped_line;
use crate::text::join;
use crate::text::lemma_trim_start;
use crate::text::lemma_word_len;
use crate::text::trim_start;
use crate::text::word_len;
use crate::text::words;
use vstd::prelude::*;

verus! {

/// The words of a text as they can be set: one that fits a line stays whole, and
/// a wider one is cut to width, its remainder carried on.
pub open spec fn chopped(ws: Seq<Seq<char>>, columns: int) -> Seq<Seq<char>>
    decreases total_len(ws), ws.len(),
    via chopped_decreases
{
    if ws.len() == 0 || columns <= 0 {
        Seq::empty()
    } else if ws[0].len() > columns {
        seq![ws[0].take(columns)] + chopped(seq![ws[0].skip(columns)] + ws.skip(1), columns)
    } else {
        seq![ws[0]] + chopped(ws.skip(1), columns)
    }
}

#[via_fn]
proof fn chopped_decreases(ws: Seq<Seq<char>>, columns: int) {
    if ws.len() > 0 && columns > 0 && ws[0].len() > columns {
        let cut = seq![ws[0].skip(columns)] + ws.skip(1);
        assert(cut.skip(1) =~= ws.skip(1));
    }
}

/// Groups of words one after another.
pub open spec fn in_a_row(groups: Seq<Seq<Seq<char>>>) -> Seq<Seq<char>>
    decreases groups.len(),
{
    if groups.len() == 0 {
        Seq::empty()
    } else {
        groups[0] + in_a_row(groups.skip(1))
    }
}

/// A group of words as a line: with a space between each two.
pub open spec fn set_line(group: Seq<Seq<char>>) -> Seq<char> {
    join(group, seq![' '])
}

/// Groups of words as lines.
pub open spec fn set_lines(groups: Seq<Seq<Seq<char>>>) -> Seq<Seq<char>> {
    groups.map_values(|g: Seq<Seq<char>>| set_line(g))
}

/// Whether these groups are a way of setting the words: all of them, in order,
/// on lines that hold at least one word each and fit the width.
pub open spec fn sets(groups: Seq<Seq<Seq<char>>>, ws: Seq<Seq<char>>, columns: int) -> bool {
    &&& in_a_row(groups) == ws
    &&& forall|i: int|
        0 <= i < groups.len() ==> (#[trigger] groups[i]).len() > 0 && set_line(groups[i]).len()
            <= columns
}

/// The groups that words make when each goes on the current line for as long as
/// it fits.
pub open spec fn greedy(ws: Seq<Seq<char>>, current: Seq<Seq<char>>, columns: int) -> Seq<
    Seq<Seq<char>>,
>
    decreases ws.len(),
{
    if ws.len() == 0 {
        if current.len() > 0 {
            seq![current]
        } else {
            Seq::empty()
        }
    } else if current.len() == 0 {
        greedy(ws.skip(1), seq![ws[0]], columns)
    } else if set_line(current).len() + 1 + ws[0].len() > columns {
        seq![current] + greedy(ws.skip(1), seq![ws[0]], columns)
    } else {
        greedy(ws.skip(1), current.push(ws[0]), columns)
    }
}

/// Words that can be set: none is empty, and each fits a line.
spec fn settable(ws: Seq<Seq<char>>, columns: int) -> bool {
    forall|i: int| 0 <= i < ws.len() ==> 0 < (#[trigger] ws[i]).len() <= columns
}

/// Words, none of which is empty.
spec fn real_words(ws: Seq<Seq<char>>) -> bool {
    forall|i: int| 0 <= i < ws.len() ==> (#[trigger] ws[i]).len() > 0
}

proof fn lemma_words_real(s: Seq<char>)
    ensures
        real_words(words(s)),
    decreases s.len(),
{
    let t = trim_start(s);
    lemma_trim_start(s);
    if t.len() > 0 {
        lemma_word_len(t);
        let n = word_len(t);
        lemma_words_real(t.skip(n));
        let r = words(s);
        let tail = words(t.skip(n));
        assert forall|i: int| 0 <= i < r.len() implies (#[trigger] r[i]).len() > 0 by {
            if i > 0 {
                assert(r[i] == tail[i - 1]);
            }
        }
    }
}

proof fn lemma_chopped(ws: Seq<Seq<char>>, columns: int)
    requires
        columns > 0,
        real_words(ws),
    ensures
        settable(chopped(ws, columns), columns),
        ws.len() > 0 ==> chopped(ws, columns).len() > 0,
    decreases total_len(ws), ws.len(),
{
    if ws.len() > 0 {
        let rest = ws.skip(1);
        assert(real_words(rest)) by {
            assert forall|i: int| 0 <= i < rest.len() implies (#[trigger] rest[i]).len() > 0 by {
                assert(rest[i] == ws[i + 1]);
            }
        }
        let r = chopped(ws, columns);
        if ws[0].len() > columns {
            let cut = seq![ws[0].skip(columns)] + rest;
            assert(cut.skip(1) =~= rest);
            assert forall|i: int| 0 <= i < cut.len() implies (#[trigger] cut[i]).len() > 0 by {
                if i > 0 {
                    assert(cut[i] == rest[i - 1]);
                }
            }
            lemma_chopped(cut, columns);
            let tail = chopped(cut, columns);
            assert forall|i: int| 0 <= i < r.len() implies 0 < (#[trigger] r[i]).len()
                <= columns by {
                if i > 0 {
                    assert(r[i] == tail[i - 1]);
                }
            }
        } else {
            lemma_chopped(rest, columns);
            let tail = chopped(rest, columns);
            assert forall|i: int| 0 <= i < r.len() implies 0 < (#[trigger] r[i]).len()
                <= columns by {
                if i > 0 {
                    assert(r[i] == tail[i - 1]);
                }
            }
        }
    }
}

proof fn lemma_set_line(group: Seq<Seq<char>>, w: Seq<char>)
    ensures
        set_line(seq![w]) == w,
        group.len() > 0 ==> set_line(group.push(w)) == set_line(group) + seq![' '] + w,
{
    if group.len() > 0 {
        assert(group.push(w).drop_last() =~= group);
    }
}

proof fn lemma_lines_cons(g: Seq<Seq<char>>, groups: Seq<Seq<Seq<char>>>)
    ensures
        set_lines(seq![g] + groups) == seq![set_line(g)] + set_lines(groups),
{
    assert(set_lines(seq![g] + groups) =~= seq![set_line(g)] + set_lines(groups));
}

/// Filling lines is setting the words group by group.
proof fn lemma_fill_is_greedy(ws: Seq<Seq<char>>, current: Seq<Seq<char>>, columns: int)
    requires
        columns > 0,
        real_words(ws),
        current.len() > 0 ==> set_line(current).len() > 0,
    ensures
        fill(
            ws,
            if current.len() > 0 {
                set_line(current)
            } else {
                Seq::empty()
            },
            columns,
        ) == set_lines(greedy(chopped(ws, columns), current, columns)),
    decreases total_len(ws), ws.len(),
{
    let none = Seq::<Seq<char>>::empty();
    let line = if current.len() > 0 {
        set_line(current)
    } else {
        Seq::empty()
    };
    if ws.len() == 0 {
        assert(fill(ws, line, columns) =~= set_lines(greedy(chopped(ws, columns), current, columns)));
    } else {
        let rest = ws.skip(1);
        assert(real_words(rest)) by {
            assert forall|i: int| 0 <= i < rest.len() implies (#[trigger] rest[i]).len() > 0 by {
                assert(rest[i] == ws[i + 1]);
            }
        }
        let w = ws[0];
        let items = chopped(ws, columns);
        if w.len() > columns {
            let cut = seq![w.skip(columns)] + rest;
            assert(cut.skip(1) =~= rest);
            assert forall|i: int| 0 <= i < cut.len() implies (#[trigger] cut[i]).len() > 0 by {
                if i > 0 {
                    assert(cut[i] == rest[i - 1]);
                }
            }
            lemma_fill_is_greedy(cut, none, columns);
            lemma_chopped(cut, columns);
            let more = chopped(cut, columns);
            let chunk = w.take(columns);
            assert(items[0] == chunk);
            assert(items.skip(1) =~= more);
            lemma_set_line(none, chunk);
            assert(0 < more[0].len());
            assert(greedy(more, seq![chunk], columns) == seq![seq![chunk]] + greedy(
                more,
                none,
                columns,
            ));
            lemma_lines_cons(seq![chunk], greedy(more, none, columns));
            lemma_lines_cons(current, greedy(more, seq![chunk], columns));
            assert(fill(ws, line, columns) =~= set_lines(greedy(items, current, columns)));
        } else {
            assert(items[0] == w);
            assert(items.skip(1) =~= chopped(rest, columns));
            lemma_set_line(current, w);
            if current.len() == 0 {
                lemma_fill_is_greedy(rest, seq![w], columns);
            } else if line.len() + 1 + w.len() > columns {
                lemma_fill_is_greedy(rest, seq![w], columns);
                lemma_lines_cons(current, greedy(chopped(rest, columns), seq![w], columns));
            } else {
                lemma_fill_is_greedy(rest, current.push(w), columns);
            }
        }
    }
}

/// Setting words one by one uses them all, in order, on lines that fit.
proof fn lemma_greedy_sets(ws: Seq<Seq<char>>, current: Seq<Seq<char>>, columns: int)
    requires
        columns > 0,
        settable(ws, columns),
        current.len() > 0 ==> set_line(current).len() <= columns,
    ensures
        sets(greedy(ws, current, columns), current + ws, columns),
    decreases ws.len(),
{
    let r = greedy(ws, current, columns);
    if ws.len() == 0 {
        if current.len() > 0 {
            assert(r.skip(1) =~= Seq::empty());
            assert(in_a_row(r.skip(1)) =~= Seq::empty());
            assert(in_a_row(r) =~= current + ws);
        } else {
            assert(current + ws =~= Seq::empty());
        }
    } else {
        let rest = ws.skip(1);
        let w = ws[0];
        assert(settable(rest, columns)) by {
            assert forall|i: int| 0 <= i < rest.len() implies 0 < (#[trigger] rest[i]).len()
                <= columns by {
                assert(rest[i] == ws[i + 1]);
            }
        }
        lemma_set_line(current, w);
        if current.len() == 0 {
            lemma_greedy_sets(rest, seq![w], columns);
            assert(seq![w] + rest =~= current + ws);
        } else if set_line(current).len() + 1 + w.len() > columns {
            lemma_greedy_sets(rest, seq![w], columns);
            let tail = greedy(rest, seq![w], columns);
            assert(r.skip(1) =~= tail);
            assert(current + (seq![w] + rest) =~= current + ws);
            assert forall|i: int| 0 <= i < r.len() implies (#[trigger] r[i]).len() > 0 && set_line(
                r[i],
            ).len() <= columns by {
                if i > 0 {
                    assert(r[i] == tail[i - 1]);
                }
            }
        } else {
            lemma_greedy_sets(rest, current.push(w), columns);
            assert(current.push(w) + rest =~= current + ws);
        }
    }
}

/// How many lines words take from a line that already holds `used` characters,
/// which is counted too.
spec fn lines_needed(ws: Seq<Seq<char>>, used: int, columns: int) -> int
    decreases ws.len(),
{
    if ws.len() == 0 {
        if used > 0 {
            1
        } else {
            0
        }
    } else if used <= 0 {
        lines_needed(ws.skip(1), ws[0].len() as int, columns)
    } else if used + 1 + ws[0].len() > columns {
        1 + lines_needed(ws.skip(1), ws[0].len() as int, columns)
    } else {
        lines_needed(ws.skip(1), used + 1 + ws[0].len(), columns)
    }
}

proof fn lemma_greedy_count(ws: Seq<Seq<char>>, current: Seq<Seq<char>>, columns: int)
    requires
        settable(ws, columns),
        current.len() > 0 ==> set_line(current).len() > 0,
    ensures
        greedy(ws, current, columns).len() == lines_needed(
            ws,
            if current.len() > 0 {
                set_line(current).len() as int
            } else {
                0
            },
            columns,
        ),
    decreases ws.len(),
{
    if ws.len() > 0 {
        let rest = ws.skip(1);
        assert(0 < ws[0].len());
        assert forall|i: int| 0 <= i < rest.len() implies 0 < (#[trigger] rest[i]).len()
            <= columns by {
            assert(rest[i] == ws[i + 1]);
        }
        lemma_set_line(current, ws[0]);
        lemma_greedy_count(rest, seq![ws[0]], columns);
        if current.len() > 0 {
            lemma_greedy_count(rest, current.push(ws[0]), columns);
        }
    }
}

/// A line that holds less never takes more lines, and starting from a fuller
/// line never saves more than the one line.
proof fn lemma_less_is_no_worse(ws: Seq<Seq<char>>, a: int, b: int, columns: int)
    requires
        settable(ws, columns),
        0 < a,
        0 < b,
    ensures
        a <= b ==> lines_needed(ws, a, columns) <= lines_needed(ws, b, columns),
        lines_needed(ws, a, columns) <= 1 + lines_needed(ws, b, columns),
    decreases ws.len(),
{
    if ws.len() > 0 {
        let rest = ws.skip(1);
        let w = ws[0].len() as int;
        assert(0 < ws[0].len());
        assert forall|i: int| 0 <= i < rest.len() implies 0 < (#[trigger] rest[i]).len()
            <= columns by {
            assert(rest[i] == ws[i + 1]);
        }
        lemma_less_is_no_worse(rest, a + 1 + w, b + 1 + w, columns);
        lemma_less_is_no_worse(rest, a + 1 + w, w, columns);
        lemma_less_is_no_worse(rest, w, b + 1 + w, columns);
    }
}

/// Words that fit one line together leave it open behind them.
proof fn lemma_one_line(group: Seq<Seq<char>>, k: int, rest: Seq<Seq<char>>, columns: int)
    requires
        settable(group, columns),
        0 < k <= group.len(),
        set_line(group).len() <= columns,
    ensures
        set_line(group.take(k)).len() > 0,
        lines_needed(group.skip(k) + rest, set_line(group.take(k)).len() as int, columns)
            == lines_needed(rest, set_line(group).len() as int, columns),
    decreases group.len() - k,
{
    lemma_grows(group, k);
    if k < group.len() {
        lemma_one_line(group, k + 1, rest, columns);
        lemma_grows(group, k + 1);
        let ws = group.skip(k) + rest;
        assert(ws[0] == group[k]);
        assert(ws.skip(1) =~= group.skip(k + 1) + rest);
        assert(group.take(k + 1) =~= group.take(k).push(group[k]));
        lemma_set_line(group.take(k), group[k]);
    } else {
        assert(group.take(k) =~= group);
        assert(group.skip(k) + rest =~= rest);
    }
}

/// A line only grows as words are put on it.
proof fn lemma_grows(group: Seq<Seq<char>>, k: int)
    requires
        0 < k <= group.len(),
        forall|i: int| 0 <= i < group.len() ==> (#[trigger] group[i]).len() > 0,
    ensures
        0 < set_line(group.take(k)).len() <= set_line(group).len(),
    decreases group.len() - k,
{
    lemma_line_holds(group.take(k));
    if k < group.len() {
        lemma_grows(group, k + 1);
        assert(group.take(k + 1) =~= group.take(k).push(group[k]));
        lemma_set_line(group.take(k), group[k]);
    } else {
        assert(group.take(k) =~= group);
    }
}

proof fn lemma_line_holds(group: Seq<Seq<char>>)
    requires
        group.len() > 0,
        forall|i: int| 0 <= i < group.len() ==> (#[trigger] group[i]).len() > 0,
    ensures
        set_line(group).len() > 0,
{
    if group.len() == 1 {
        assert(group[0].len() > 0);
    }
}

/// No way of setting words takes fewer lines than setting them one by one.
proof fn lemma_fewest(groups: Seq<Seq<Seq<char>>>, ws: Seq<Seq<char>>, columns: int)
    requires
        settable(ws, columns),
        sets(groups, ws, columns),
    ensures
        lines_needed(ws, 0, columns) <= groups.len(),
    decreases groups.len(),
{
    if groups.len() > 0 {
        let g = groups[0];
        let others = groups.skip(1);
        let rest = in_a_row(others);
        assert(ws =~= g + rest);
        assert(g.len() > 0 && set_line(g).len() <= columns);
        assert forall|i: int| 0 <= i < g.len() implies 0 < (#[trigger] g[i]).len() <= columns by {
            assert(g[i] == ws[i]);
        }
        assert forall|i: int| 0 <= i < rest.len() implies 0 < (#[trigger] rest[i]).len()
            <= columns by {
            assert(rest[i] == ws[g.len() + i]);
        }
        assert forall|i: int| 0 <= i < others.len() implies (#[trigger] others[i]).len() > 0
            && set_line(others[i]).len() <= columns by {
            assert(others[i] == groups[i + 1]);
        }
        lemma_fewest(others, rest, columns);
        lemma_one_line(g, 1, rest, columns);
        assert(g.take(1) =~= seq![g[0]]);
        lemma_set_line(g, g[0]);
        assert(ws[0] == g[0]);
        assert(ws.skip(1) =~= g.skip(1) + rest);
        lemma_line_holds(g);
        let used = set_line(g).len() as int;
        if rest.len() > 0 {
            let w = rest[0].len() as int;
            let after = rest.skip(1);
            assert forall|i: int| 0 <= i < after.len() implies 0 < (#[trigger] after[i]).len()
                <= columns by {
                assert(after[i] == rest[i + 1]);
            }
            lemma_less_is_no_worse(after, used + 1 + w, w, columns);
        }
    }
}

/// Wrapping cuts no word that fits a line, and takes as few lines as can be:
/// every line is some of the words with single spaces between them, together
/// they are all of the words in order, and no other way of setting those words
/// takes fewer lines.
pub proof fn law_wrapping_is_tight(
    line: Seq<char>,
    columns: int,
    other: Seq<Seq<Seq<char>>>,
)
    requires
        columns > 0,
        words(line).len() > 0,
        sets(other, chopped(words(line), columns), columns),
    ensures
        ({
            let ours = greedy(chopped(words(line), columns), Seq::empty(), columns);
            &&& wrapped_line(line, columns) == set_lines(ours)
            &&& sets(ours, chopped(words(line), columns), columns)
            &&& wrapped_line(line, columns).len() <= other.len()
        }),
{
    let none = Seq::<Seq<char>>::empty();
    let ws = words(line);
    let items = chopped(ws, columns);
    lemma_words_real(line);
    lemma_chopped(ws, columns);
    lemma_fill_is_greedy(ws, none, columns);
    lemma_greedy_sets(items, none, columns);
    assert(none + items =~= items);
    lemma_greedy_count(items, none, columns);
    lemma_fewest(other, items, columns);
    let ours = greedy(items, none, columns);
    assert(ours.len() > 0) by {
        if ours.len() == 0 {
            assert(in_a_row(ours).len() == 0);
        }
    }
}

/// Words that fit are set as they are: where none is wider than a line, none is
/// cut.
pub proof fn law_words_that_fit_stay_whole(ws: Seq<Seq<char>>, columns: int)
    requires
        columns > 0,
        forall|i: int| 0 <= i < ws.len() ==> (#[trigger] ws[i]).len() <= columns,
    ensures
        chopped(ws, columns) == ws,
    decreases ws.len(),
{
    if ws.len() > 0 {
        let rest = ws.skip(1);
        assert forall|i: int| 0 <= i < rest.len() implies (#[trigger] rest[i]).len() <= columns by {
            assert(rest[i] == ws[i + 1]);
        }
        assert(ws[0].len() <= columns);
        law_words_that_fit_stay_whole(rest, columns);
        assert(seq![ws[0]] + rest =~= ws);
    } else {
        assert(chopped(ws, columns) =~= ws);
    }
}

} // verus!

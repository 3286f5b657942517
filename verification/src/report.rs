//! Assembling aligned report rows out of already-styled column values.

use crate::color_aware_string::{pad_count, sat_len, space_seq, visible_len, ColorAwareString};
use crate::smf::split_on;
use vstd::prelude::*;

verus! {

/// One rendered column: a leading space, then the value padded to the
/// column's visible width.
pub open spec fn padded_col(s: Seq<char>, w: int) -> Seq<char> {
    seq![' '] + s + space_seq(pad_count(s, w))
}

/// The columns of one list-command row: state glyph, service identifier,
/// contract id, process count and age, padded to their column widths.
pub open spec fn spec_output_line(cols: Seq<Seq<char>>) -> Seq<char> {
    padded_col(cols[0], 1) + padded_col(cols[1], 40) + padded_col(cols[2], 7) + padded_col(
        cols[3],
        7,
    ) + padded_col(cols[4], 10)
}

/// Align the first five column values of `cols` into one report row. Each
/// column is padded to its fixed visible width; styled values take up no
/// extra width for their escape runs.
pub fn format_output_line(cols: &Vec<String>) -> (r: String)
    requires
        cols@.len() >= 5,
    ensures
        r@ == spec_output_line(cols.deep_view()),
{
    let widths: [usize; 5] = [1, 40, 7, 7, 10];
    let mut line = String::new();
    let mut i: usize = 0;
    while i < 5
        invariant
            0 <= i <= 5,
            cols@.len() >= 5,
            widths@ == seq![1usize, 40usize, 7usize, 7usize, 10usize],
            line@ == spec_line_prefix(cols.deep_view(), i as int),
        decreases 5 - i,
    {
        let cas = ColorAwareString::with_string(cols[i].clone());
        let padded: String = cas.pad_end(widths[i]);
        line.append(" ");
        line.append(padded.as_str());
        proof {
            reveal_strlit(" ");
            assert(" "@ =~= seq![' ']);
            assert(cols.deep_view()[i as int] == cols@[i as int]@);
            assert(line@ =~= spec_line_prefix(cols.deep_view(), i as int) + padded_col(
                cols.deep_view()[i as int],
                widths@[i as int] as int,
            ));
        }
        i = i + 1;
    }
    proof {
        reveal_with_fuel(spec_line_prefix, 6);
        assert(line@ =~= spec_output_line(cols.deep_view()));
    }
    line
}

/// The first `k` columns of a row, already padded and joined.
pub open spec fn spec_line_prefix(cols: Seq<Seq<char>>, k: int) -> Seq<char>
    decreases k,
{
    if k <= 0 {
        Seq::empty()
    } else {
        spec_line_prefix(cols, k - 1) + padded_col(cols[k - 1], col_width(k - 1))
    }
}

/// The fixed visible width of column `i` of a list-command row.
pub open spec fn col_width(i: int) -> int {
    if i == 0 {
        1int
    } else if i == 1 {
        40int
    } else if i == 2 {
        7int
    } else if i == 3 {
        7int
    } else {
        10int
    }
}

/// The views of a list of key/value pairs.
pub open spec fn views_of(entries: Seq<(String, String)>) -> Seq<(Seq<char>, Seq<char>)> {
    entries.map_values(|p: (String, String)| (p.0@, p.1@))
}

/// The widest visible key width among the entries.
pub open spec fn max_key_width(entries: Seq<(Seq<char>, Seq<char>)>) -> int
    decreases entries.len(),
{
    if entries.len() == 0 {
        0int
    } else {
        let m = max_key_width(entries.drop_last());
        let k = sat_len(visible_len(entries.last().0));
        if k > m {
            k
        } else {
            m
        }
    }
}

/// The rendered lines of one entry: the first line carries the key,
/// right-aligned to the key column of width `w` and followed by a colon;
/// every further line of a multi-line value is indented blank.
pub open spec fn entry_lines(key: Seq<char>, value: Seq<char>, w: int) -> Seq<Seq<char>> {
    let ls = split_on(value, '\n');
    Seq::new(
        ls.len(),
        |k: int|
            if k == 0 {
                space_seq(pad_count(key, w)) + key + seq![':', ' '] + ls[0]
            } else {
                space_seq(pad_count(Seq::<char>::empty(), w)) + seq![' ', ' '] + ls[k]
            },
    )
}

/// The rendered lines of all entries, in order.
pub open spec fn entries_lines(entries: Seq<(Seq<char>, Seq<char>)>, w: int) -> Seq<Seq<char>>
    decreases entries.len(),
{
    if entries.len() == 0 {
        Seq::empty()
    } else {
        entries_lines(entries.drop_last(), w) + entry_lines(
            entries.last().0,
            entries.last().1,
            w,
        )
    }
}

/// Lines joined by single newlines, with none at the end.
pub open spec fn join_nl(ls: Seq<Seq<char>>) -> Seq<char>
    decreases ls.len(),
{
    if ls.len() == 0 {
        Seq::empty()
    } else if ls.len() == 1 {
        ls[0]
    } else {
        ls[0] + seq!['\n'] + join_nl(ls.drop_first())
    }
}

/// The whole rendered status block of a list of key/value entries.
pub open spec fn spec_status_map(entries: Seq<(Seq<char>, Seq<char>)>) -> Seq<char> {
    join_nl(entries_lines(entries, max_key_width(entries)))
}

/// Appending a line to a joined block appends a newline and the line.
proof fn lemma_join_nl_push(ls: Seq<Seq<char>>, x: Seq<char>)
    ensures
        join_nl(ls.push(x)) == if ls.len() == 0 {
            x
        } else {
            join_nl(ls) + seq!['\n'] + x
        },
    decreases ls.len(),
{
    if ls.len() == 0 {
        assert(ls.push(x)[0] =~= x);
    } else {
        assert(ls.push(x)[0] == ls[0]);
        assert(ls.push(x).drop_first() =~= ls.drop_first().push(x));
        lemma_join_nl_push(ls.drop_first(), x);
        assert(join_nl(ls.push(x)) =~= join_nl(ls) + seq!['\n'] + x);
    }
}

/// Render a non-empty list of key/value entries as one aligned block: each
/// key right-aligned to the widest key's visible width and followed by a
/// colon, each further line of a multi-line value indented blank. Styled
/// keys take up no extra width for their escape runs.
pub fn format_status_map(entries: &Vec<(String, String)>) -> (r: String)
    requires
        entries@.len() > 0,
    ensures
        r@ == spec_status_map(views_of(entries@)),
{
    let ghost vs: Seq<(Seq<char>, Seq<char>)> = views_of(entries@);
    let n: usize = entries.len();

    // The widest visible key decides the key column.
    let mut w: usize = 0;
    let mut i: usize = 0;
    proof {
        assert(vs.take(0) =~= Seq::<(Seq<char>, Seq<char>)>::empty());
    }
    while i < n
        invariant
            0 <= i <= n == entries@.len(),
            vs == views_of(entries@),
            w == max_key_width(vs.take(i as int)),
        decreases n - i,
    {
        let kl: usize = ColorAwareString::with_string(entries[i].0.clone()).raw_len();
        proof {
            assert(vs.take(i as int + 1).drop_last() =~= vs.take(i as int));
            assert(vs.take(i as int + 1).last() == vs[i as int]);
            assert(vs[i as int].0 == entries@[i as int].0@);
        }
        if kl > w {
            w = kl;
        }
        i = i + 1;
    }
    proof {
        assert(vs.take(n as int) =~= vs);
    }

    // Render every line of every entry.
    let mut rows: Vec<String> = Vec::new();
    let mut i: usize = 0;
    proof {
        assert(entries_lines(vs.take(0), w as int) =~~= rows.deep_view());
    }
    while i < n
        invariant
            0 <= i <= n == entries@.len(),
            vs == views_of(entries@),
            w == max_key_width(vs),
            rows.deep_view() == entries_lines(vs.take(i as int), w as int),
        decreases n - i,
    {
        proof {
            assert(vs[i as int].0 == entries@[i as int].0@);
            assert(vs[i as int].1 == entries@[i as int].1@);
        }
        let key = ColorAwareString::with_string(entries[i].0.clone());
        let value_chars: Vec<char> = crate::text::str_chars(entries[i].1.as_str());
        let lines: Vec<Vec<char>> = crate::smf::split_vec(&value_chars, '\n');
        let ghost el: Seq<Seq<char>> = entry_lines(vs[i as int].0, vs[i as int].1, w as int);
        let ghost done: Seq<Seq<char>> = entries_lines(vs.take(i as int), w as int);
        let m: usize = lines.len();
        let mut k: usize = 0;
        proof {
            assert(el.take(0) =~~= Seq::<Seq<char>>::empty());
            assert(rows.deep_view() + el.take(0) =~~= rows.deep_view());
        }
        while k < m
            invariant
                0 <= k <= m,
                m == lines@.len(),
                lines.deep_view() == split_on(vs[i as int].1, '\n'),
                key@ == vs[i as int].0,
                el == entry_lines(vs[i as int].0, vs[i as int].1, w as int),
                rows.deep_view() == done + el.take(k as int),
            decreases m - k,
        {
            let ghost old_rows: Seq<Seq<char>> = rows.deep_view();
            let line_str: String = crate::text::chars_to_string(&lines[k]);
            let mut row: String;
            if k == 0 {
                row = key.pad_start(w);
                row.append(":");
                row.append(" ");
            } else {
                row = ColorAwareString::with_string(String::new()).pad_start(w);
                row.append("  ");
            }
            row.append(line_str.as_str());
            proof {
                reveal_strlit(":");
                reveal_strlit(" ");
                reveal_strlit("  ");
                assert(lines.deep_view()[k as int] == lines@[k as int]@);
                assert(row@ =~= el[k as int]);
            }
            rows.push(row);
            proof {
                assert(rows.deep_view() =~~= old_rows.push(el[k as int]));
                assert(el.take(k as int + 1) =~~= el.take(k as int).push(el[k as int]));
                assert(rows.deep_view() =~~= done + el.take(k as int + 1));
            }
            k = k + 1;
        }
        proof {
            assert(el.take(m as int) =~~= el);
            assert(vs.take(i as int + 1).drop_last() =~= vs.take(i as int));
            assert(vs.take(i as int + 1).last() == vs[i as int]);
            assert(rows.deep_view() =~~= entries_lines(vs.take(i as int + 1), w as int));
        }
        i = i + 1;
    }
    proof {
        assert(vs.take(n as int) =~= vs);
    }

    // Join the rendered lines with newlines.
    let mut out = String::new();
    let rn: usize = rows.len();
    let mut i: usize = 0;
    proof {
        assert(rows.deep_view().take(0) =~~= Seq::<Seq<char>>::empty());
    }
    while i < rn
        invariant
            0 <= i <= rn == rows@.len(),
            rows.deep_view() == entries_lines(vs, w as int),
            vs == views_of(entries@),
            w == max_key_width(vs),
            out@ == join_nl(rows.deep_view().take(i as int)),
        decreases rn - i,
    {
        if i > 0 {
            out.append("\n");
        }
        out.append(rows[i].as_str());
        proof {
            reveal_strlit("\n");
            assert("\n"@ =~= seq!['\n']);
            assert(rows.deep_view().take(i as int + 1) =~~= rows.deep_view().take(
                i as int,
            ).push(rows.deep_view()[i as int]));
            lemma_join_nl_push(rows.deep_view().take(i as int), rows.deep_view()[i as int]);
            assert(rows.deep_view()[i as int] == rows@[i as int]@);
            assert(out@ =~= join_nl(rows.deep_view().take(i as int + 1)));
        }
        i = i + 1;
    }
    proof {
        assert(rows.deep_view().take(rn as int) =~~= rows.deep_view());
    }
    out
}

} // verus!

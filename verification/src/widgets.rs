//! Text rendering of small charts for the terminal monitor.
use vstd::prelude::*;
use crate::config::Units;
use crate::stats::{bytes_text, format_bytes};
use crate::text::{push_char, push_str};

verus! {

/// The largest value, 0 for none.
pub open spec fn max_of(values: Seq<u64>) -> u64
    decreases values.len(),
{
    if values.len() == 0 {
        0
    } else {
        let m = max_of(values.drop_last());
        if values.last() > m {
            values.last()
        } else {
            m
        }
    }
}

/// The top of the chart: the largest value, at least 1.
pub open spec fn chart_top(values: Seq<u64>) -> u64 {
    if max_of(values) >= 1 {
        max_of(values)
    } else {
        1
    }
}

/// Value shown in column `col` of `width`: the value at the proportional
/// position, 0 past the end.
pub open spec fn column_value(values: Seq<u64>, col: int, width: int) -> u64 {
    let idx = col * values.len() / width;
    if idx < values.len() {
        values[idx]
    } else {
        0
    }
}

/// Row `row` (from the top) of a chart of `height` rows: a block where the
/// column's value reaches the row's level.
pub open spec fn chart_row(values: Seq<u64>, row: int, height: int, width: int) -> Seq<char> {
    let top = chart_top(values) as int;
    let level = top - top * row / height;
    Seq::new(width as nat, |col: int| if column_value(values, col, width) >= level { '█' } else { ' ' })
}

/// Rows `0..n` of the chart, each ending with a newline.
pub open spec fn chart_rows(values: Seq<u64>, n: int, height: int, width: int) -> Seq<char>
    decreases n,
{
    if n <= 0 {
        seq![]
    } else {
        chart_rows(values, n - 1, height, width) + chart_row(values, n - 1, height, width) + "\n"@
    }
}

/// The chart text: a title line with the top value, then the rows.
pub open spec fn chart_text(values: Seq<u64>, title: Seq<char>, height: int, width: int) -> Seq<char> {
    title + " (max "@ + bytes_text(chart_top(values), Units::Auto) + ")"@ + "\n"@ + chart_rows(
        values,
        height,
        height,
        width,
    )
}

/// Draws `values` as a bar chart of `height` rows and `width` columns;
/// nothing fits in fewer than two of either.
pub fn sparkline_text(values: &[u64], title: &str, height: usize, width: usize) -> (r: Option<String>)
    requires
        values@.len() > 0,
        chart_top(values@) * height <= u64::MAX,
        width * values@.len() <= usize::MAX,
    ensures
        height < 2 || width < 2 ==> r is None,
        height >= 2 && width >= 2 ==> (r matches Some(s) && s@ == chart_text(
            values@,
            title@,
            height as int,
            width as int,
        )),
{
    if height < 2 || width < 2 {
        return None;
    }
    let mut top: u64 = 0;
    let mut i: usize = 0;
    while i < values.len()
        invariant
            i <= values@.len(),
            top == max_of(values@.take(i as int)),
        decreases values@.len() - i,
    {
        proof {
            let t = values@.take(i + 1);
            assert(t.drop_last() =~= values@.take(i as int));
        }
        if values[i] > top {
            top = values[i];
        }
        i = i + 1;
    }
    proof {
        assert(values@.take(values@.len() as int) =~= values@);
    }
    if top < 1 {
        top = 1;
    }
    let mut out = title.to_owned();
    push_str(&mut out, " (max ");
    push_str(&mut out, format_bytes(top, Units::Auto).as_str());
    push_str(&mut out, ")");
    push_str(&mut out, "\n");
    let ghost head = out@;
    let n = values.len();
    let mut row: usize = 0;
    while row < height
        invariant
            2 <= height,
            2 <= width,
            n == values@.len(),
            n > 0,
            top == chart_top(values@),
            top * height <= u64::MAX,
            width * n <= usize::MAX,
            row <= height,
            out@ == head + chart_rows(values@, row as int, height as int, width as int),
        decreases height - row,
    {
        proof {
            assert(top * row <= top * height) by (nonlinear_arith)
                requires
                    row <= height,
            ;
            assert(top * row / (height as int) <= top) by (nonlinear_arith)
                requires
                    row <= height,
                    height >= 2,
            ;
        }
        let level: u64 = top - (top * (row as u64)) / (height as u64);
        let ghost before = out@;
        let mut col: usize = 0;
        while col < width
            invariant
                2 <= width,
                n == values@.len(),
                n > 0,
                width * n <= usize::MAX,
                col <= width,
                level as int == (top as int) - (top as int) * (row as int) / (height as int),
                top == chart_top(values@),
                out@ == before + chart_row(values@, row as int, height as int, width as int).take(
                    col as int,
                ),
            decreases width - col,
        {
            proof {
                assert(col * n <= width * n) by (nonlinear_arith)
                    requires
                        col <= width,
                ;
            }
            let idx = col * n / width;
            let val = if idx < n {
                values[idx]
            } else {
                0
            };
            if val >= level {
                push_char(&mut out, '█');
            } else {
                push_char(&mut out, ' ');
            }
            proof {
                let full = chart_row(values@, row as int, height as int, width as int);
                assert(full.take(col + 1) =~= full.take(col as int).push(full[col as int]));
            }
            col = col + 1;
        }
        push_str(&mut out, "\n");
        proof {
            let full = chart_row(values@, row as int, height as int, width as int);
            assert(full.take(width as int) =~= full);
            assert(out@ =~= head + chart_rows(values@, row + 1, height as int, width as int));
        }
        row = row + 1;
    }
    assert(out@ =~= chart_text(values@, title@, height as int, width as int));
    Some(out)
}

} // verus!

use crate::binary_segmentation::{BinarySegmentationResult, NodeView};
use crate::model_selection_result::PValue;
use std::fmt::Display;
use vstd::prelude::*;
use vstd::string::to_string_from_display_ensures;
use vstd::string::StringExecFns;

verus! {

/// The text of a table cell: what `Display` writes for the value, or nothing
/// when there is no value.
pub fn _display_option<T: Display>(option: &Option<T>) -> (cell: String)
    ensures
        match option {
            Some(val) => to_string_from_display_ensures::<T>(val, cell),
            None => cell@ == Seq::<char>::empty(),
        },
{
    match option {
        Some(val) => val.to_string(),
        None => String::new(),
    }
}

/// The character of a decimal digit.
pub open spec fn spec_digit(d: int) -> char {
    if d == 0 {
        '0'
    } else if d == 1 {
        '1'
    } else if d == 2 {
        '2'
    } else if d == 3 {
        '3'
    } else if d == 4 {
        '4'
    } else if d == 5 {
        '5'
    } else if d == 6 {
        '6'
    } else if d == 7 {
        '7'
    } else if d == 8 {
        '8'
    } else {
        '9'
    }
}

/// The decimal digits of a number, without leading zeros.
pub open spec fn spec_decimal(n: nat) -> Seq<char>
    decreases n,
{
    if n < 10 {
        seq![spec_digit(n as int)]
    } else {
        spec_decimal(n / 10).push(spec_digit((n % 10) as int))
    }
}

fn digit(d: usize) -> (text: &'static str)
    requires
        d < 10,
    ensures
        text@ == seq![spec_digit(d as int)],
{
    proof {
        reveal_strlit("0");
        reveal_strlit("1");
        reveal_strlit("2");
        reveal_strlit("3");
        reveal_strlit("4");
        reveal_strlit("5");
        reveal_strlit("6");
        reveal_strlit("7");
        reveal_strlit("8");
        reveal_strlit("9");
    }
    let text = if d == 0 {
        "0"
    } else if d == 1 {
        "1"
    } else if d == 2 {
        "2"
    } else if d == 3 {
        "3"
    } else if d == 4 {
        "4"
    } else if d == 5 {
        "5"
    } else if d == 6 {
        "6"
    } else if d == 7 {
        "7"
    } else if d == 8 {
        "8"
    } else {
        "9"
    };
    assert(text@ =~= seq![spec_digit(d as int)]);
    text
}

/// The number in decimal digits.
pub fn decimal(n: usize) -> (text: String)
    ensures
        text@ == spec_decimal(n as nat),
    decreases n,
{
    if n < 10 {
        String::from_str(digit(n))
    } else {
        let mut text = decimal(n / 10);
        text.append(digit(n % 10));
        assert(text@ =~= spec_decimal(n as nat));
        text
    }
}

/// The name of the interval `[start, stop)` in a table: `(start, stop]`.
pub open spec fn spec_interval(start: usize, stop: usize) -> Seq<char> {
    "("@ + spec_decimal(start as nat) + ", "@ + spec_decimal(stop as nat) + "]"@
}

/// The name of the interval `[start, stop)` in a table.
pub fn interval(start: usize, stop: usize) -> (text: String)
    ensures
        text@ == spec_interval(start, stop),
{
    let mut text = String::from_str("(");
    text.append(decimal(start).as_str());
    text.append(", ");
    text.append(decimal(stop).as_str());
    text.append("]");
    text
}

/// The nodes of a tree in the order of the rows of its table: the node, the
/// nodes of its left child, the nodes of its right child. Children have rows
/// only where a node has both.
pub open spec fn spec_row_nodes(node: NodeView) -> Seq<NodeView>
    decreases node,
{
    if node.left is Some && node.right is Some {
        seq![node] + spec_row_nodes(*node.left->0) + spec_row_nodes(*node.right->0)
    } else {
        seq![node]
    }
}

/// The first cells of the rows of a tree: the names of the intervals, drawn
/// as a tree.
///
/// The name of a node follows `indent` and `marker`. The names of the nodes
/// below it are indented by `indent` and `trail`; a left child is marked
/// ` ¦--` and trailed by ` ¦  `, a right child is marked ` °--` and trailed
/// by four spaces.
pub open spec fn spec_labels(
    node: NodeView,
    indent: Seq<char>,
    marker: Seq<char>,
    trail: Seq<char>,
) -> Seq<Seq<char>>
    decreases node,
{
    let own = seq![indent + marker + spec_interval(node.start, node.stop)];
    if node.left is Some && node.right is Some {
        own + spec_labels(*node.left->0, indent + trail, " ¦--"@, " ¦  "@) + spec_labels(
            *node.right->0,
            indent + trail,
            " °--"@,
            "    "@,
        )
    } else {
        own
    }
}

/// There is a name for each node.
pub proof fn lemma_labels_len(node: NodeView, indent: Seq<char>, marker: Seq<char>, trail: Seq<char>)
    ensures
        spec_labels(node, indent, marker, trail).len() == spec_row_nodes(node).len(),
    decreases node,
{
    if node.left is Some && node.right is Some {
        lemma_labels_len(*node.left->0, indent + trail, " ¦--"@, " ¦  "@);
        lemma_labels_len(*node.right->0, indent + trail, " °--"@, "    "@);
    }
}

/// `row` is the row of `node` under the name `label`: the name, the best
/// split in decimal digits, the gain as `gain_of` and `Display` give it, and
/// the p-value as `p_value_of` and `Display` give it. A cell is empty where the
/// node has no split, or no p-value.
pub open spec fn is_row_of<G: Display, P: Display, FG: Fn(i64) -> G, FP: Fn(PValue) -> P>(
    gain_of: FG,
    p_value_of: FP,
    node: NodeView,
    label: Seq<char>,
    row: Vec<String>,
) -> bool {
    &&& row@.len() == 4
    &&& row@[0]@ == label
    &&& match node.optimizer_result {
        Some(found) => {
            &&& row@[1]@ == spec_decimal(found.best_split as nat)
            &&& exists|gain: G|
                call_ensures(gain_of, (found.max_gain,), gain)
                    && #[trigger] to_string_from_display_ensures::<G>(&gain, row@[2])
        },
        None => row@[1]@ == Seq::<char>::empty() && row@[2]@ == Seq::<char>::empty(),
    }
    &&& match node.model_selection_result.p_value {
        Some(p_value) => exists|shown: P|
            call_ensures(p_value_of, (p_value,), shown)
                && #[trigger] to_string_from_display_ensures::<P>(&shown, row@[3]),
        None => row@[3]@ == Seq::<char>::empty(),
    }
}

fn format_node<G: Display, P: Display, FG: Fn(i64) -> G, FP: Fn(PValue) -> P>(
    result: &BinarySegmentationResult,
    indent: &str,
    marker: &str,
    trail: &str,
    gain_of: &FG,
    p_value_of: &FP,
    rows: &mut Vec<Vec<String>>,
)
    requires
        forall|score: i64| call_requires(*gain_of, (score,)),
        forall|p_value: PValue| call_requires(*p_value_of, (p_value,)),
    ensures
        final(rows)@.len() == old(rows)@.len() + spec_row_nodes(result@).len(),
        forall|i: int| 0 <= i < old(rows)@.len() ==> final(rows)@[i] == old(rows)@[i],
        forall|j: int|
            0 <= j < spec_row_nodes(result@).len() ==> is_row_of(
                *gain_of,
                *p_value_of,
                #[trigger] spec_row_nodes(result@)[j],
                spec_labels(result@, indent@, marker@, trail@)[j],
                final(rows)@[old(rows)@.len() + j],
            ),
    decreases result,
{
    let mut label = String::from_str(indent);
    label.append(marker);
    label.append(interval(result.start, result.stop).as_str());
    let ghost node = result@;
    let ghost labels = spec_labels(node, indent@, marker@, trail@);
    assert(label@ =~= labels[0]);
    let mut row: Vec<String> = Vec::new();
    row.push(label);
    match &result.optimizer_result {
        Some(found) => {
            row.push(decimal(found.best_split));
            let gain = gain_of(found.max_gain);
            let ghost shown = gain;
            row.push(_display_option(&Some(gain)));
            assert(to_string_from_display_ensures::<G>(&shown, row@[2]));
        },
        None => {
            row.push(String::new());
            row.push(String::new());
        },
    }
    let ghost gain_cell = row@[2];
    match result.model_selection_result.p_value {
        Some(p_value) => {
            let ratio = p_value_of(p_value);
            let ghost shown = ratio;
            row.push(_display_option(&Some(ratio)));
            assert(to_string_from_display_ensures::<P>(&shown, row@[3]));
        },
        None => {
            row.push(String::new());
        },
    }
    assert(row@[2] == gain_cell);
    let ghost before = rows@;
    assert(is_row_of(*gain_of, *p_value_of, node, labels[0], row));
    rows.push(row);
    match (&result.left, &result.right) {
        (Some(left), Some(right)) => {
            let mut below = String::from_str(indent);
            below.append(trail);
            let ghost left_labels = spec_labels(left@, below@, " ¦--"@, " ¦  "@);
            let ghost right_labels = spec_labels(right@, below@, " °--"@, "    "@);
            let ghost left_nodes = spec_row_nodes(left@);
            let ghost right_nodes = spec_row_nodes(right@);
            proof {
                lemma_labels_len(left@, below@, " ¦--"@, " ¦  "@);
                lemma_labels_len(right@, below@, " °--"@, "    "@);
                assert(node.left->0 == left@);
                assert(node.right->0 == right@);
            }
            format_node(left, below.as_str(), " ¦--", " ¦  ", gain_of, p_value_of, rows);
            let ghost after_left = rows@;
            format_node(right, below.as_str(), " °--", "    ", gain_of, p_value_of, rows);
            proof {
                let nodes = spec_row_nodes(node);
                assert(nodes == seq![node] + left_nodes + right_nodes);
                assert(labels == seq![labels[0]] + left_labels + right_labels);
                assert forall|j: int| 0 <= j < nodes.len() implies is_row_of(
                    *gain_of,
                    *p_value_of,
                    #[trigger] nodes[j],
                    labels[j],
                    rows@[before.len() + j],
                ) by {
                    if j == 0 {
                        assert(rows@[before.len() as int] == after_left[before.len() as int]);
                    } else if j <= left_nodes.len() {
                        assert(nodes[j] == left_nodes[j - 1]);
                        assert(labels[j] == left_labels[j - 1]);
                        assert(rows@[before.len() + j] == after_left[before.len() + 1 + (j - 1)]);
                    } else {
                        let k = j - 1 - left_nodes.len();
                        assert(nodes[j] == right_nodes[k]);
                        assert(labels[j] == right_labels[k]);
                    }
                }
            }
        },
        _ => {},
    }
}

/// The rows of the table of a tree, one for each node: the name of the node's
/// interval, drawn as a tree, the best split, the gain and the p-value.
///
/// `gain_of` turns the score of a gain into what is shown of it, and
/// `p_value_of` a p-value.
pub fn _format_tree<G: Display, P: Display, FG: Fn(i64) -> G, FP: Fn(PValue) -> P>(
    result: &BinarySegmentationResult,
    gain_of: &FG,
    p_value_of: &FP,
) -> (rows: Vec<Vec<String>>)
    requires
        forall|score: i64| call_requires(*gain_of, (score,)),
        forall|p_value: PValue| call_requires(*p_value_of, (p_value,)),
    ensures
        rows@.len() == spec_row_nodes(result@).len(),
        forall|j: int|
            0 <= j < rows@.len() ==> is_row_of(
                *gain_of,
                *p_value_of,
                #[trigger] spec_row_nodes(result@)[j],
                spec_labels(
                    result@,
                    Seq::<char>::empty(),
                    Seq::<char>::empty(),
                    Seq::<char>::empty(),
                )[j],
                rows@[j],
            ),
{
    let mut rows: Vec<Vec<String>> = Vec::new();
    proof {
        reveal_strlit("");
        assert(""@ =~= Seq::<char>::empty());
    }
    format_node(result, "", "", "", gain_of, p_value_of, &mut rows);
    rows
}

/// Every row has four cells.
pub open spec fn has_four_columns(rows: Seq<Seq<Seq<char>>>) -> bool {
    forall|r: int| 0 <= r < rows.len() ==> (#[trigger] rows[r]).len() == 4
}

/// The width of a column: the length of its longest cell.
pub open spec fn spec_width(rows: Seq<Seq<Seq<char>>>, column: int) -> nat
    decreases rows.len(),
{
    if rows.len() == 0 {
        0
    } else {
        let above = spec_width(rows.drop_last(), column);
        if rows.last()[column].len() > above {
            rows.last()[column].len()
        } else {
            above
        }
    }
}

/// No cell is longer than its column is wide.
pub proof fn lemma_width_bounds(rows: Seq<Seq<Seq<char>>>, column: int, r: int)
    requires
        0 <= r < rows.len(),
    ensures
        rows[r][column].len() <= spec_width(rows, column),
    decreases rows.len(),
{
    if r < rows.len() - 1 {
        lemma_width_bounds(rows.drop_last(), column, r);
    }
}

/// `n` spaces.
pub open spec fn spec_spaces(n: int) -> Seq<char> {
    Seq::new(n as nat, |i: int| ' ')
}

/// A cell that follows the space before its column, filled up on its left to
/// the width of the column.
pub open spec fn spec_right_aligned(cell: Seq<char>, width: nat) -> Seq<char> {
    spec_spaces(width - cell.len() + 1) + cell
}

/// A line of the table: the first cell, filled up on its right to the width
/// of its column, then a space, then each other cell behind a space, filled up
/// on its left.
pub open spec fn spec_line(row: Seq<Seq<char>>, widths: Seq<nat>) -> Seq<char> {
    row[0] + spec_spaces(widths[0] - row[0].len() + 1) + spec_right_aligned(row[1], widths[1])
        + spec_right_aligned(row[2], widths[2]) + spec_right_aligned(row[3], widths[3])
}

/// The lines of `rows`, each but the first behind a line break.
pub open spec fn spec_lines(rows: Seq<Seq<Seq<char>>>, widths: Seq<nat>) -> Seq<char>
    decreases rows.len(),
{
    if rows.len() == 0 {
        Seq::empty()
    } else if rows.len() == 1 {
        spec_line(rows[0], widths)
    } else {
        spec_lines(rows.drop_last(), widths) + seq!['\n'] + spec_line(rows.last(), widths)
    }
}

/// The rows laid out as a table, each column as wide as its longest cell.
pub open spec fn spec_layout(rows: Seq<Seq<Seq<char>>>) -> Seq<char> {
    spec_lines(
        rows,
        seq![
            spec_width(rows, 0),
            spec_width(rows, 1),
            spec_width(rows, 2),
            spec_width(rows, 3),
        ],
    )
}

fn width(rows: &Vec<Vec<String>>, column: usize) -> (width: usize)
    requires
        has_four_columns(rows.deep_view()),
        column < 4,
    ensures
        width == spec_width(rows.deep_view(), column as int),
{
    let mut width: usize = 0;
    let mut r: usize = 0;
    let ghost all = rows.deep_view();
    assert(all.take(0).len() == 0);
    while r < rows.len()
        invariant
            r <= rows.len(),
            all == rows.deep_view(),
            all.len() == rows.len(),
            has_four_columns(all),
            column < 4,
            width == spec_width(all.take(r as int), column as int),
        decreases rows.len() - r,
    {
        assert(all[r as int].len() == 4);
        assert(all[r as int] == rows@[r as int].deep_view());
        assert(all[r as int][column as int] == rows@[r as int]@[column as int]@);
        let length = rows[r][column].as_str().unicode_len();
        proof {
            let seen = all.take(r + 1);
            assert(seen.drop_last() =~= all.take(r as int));
            assert(seen.last() == all[r as int]);
        }
        if length > width {
            width = length;
        }
        r += 1;
    }
    assert(all.take(rows.len() as int) =~= all);
    width
}

fn pad(text: &mut String, n: usize)
    ensures
        final(text)@ == old(text)@ + spec_spaces(n as int),
{
    let mut i: usize = 0;
    assert(text@ =~= old(text)@ + spec_spaces(0));
    while i < n
        invariant
            i <= n,
            text@ == old(text)@ + spec_spaces(i as int),
        decreases n - i,
    {
        proof {
            reveal_strlit(" ");
        }
        text.append(" ");
        i += 1;
        assert(text@ =~= old(text)@ + spec_spaces(i as int));
    }
}

fn right_aligned(text: &mut String, cell: &String, width: usize)
    requires
        cell@.len() <= width,
    ensures
        final(text)@ == old(text)@ + spec_right_aligned(cell@, width as nat),
{
    let length = cell.as_str().unicode_len();
    pad(text, width - length);
    pad(text, 1);
    text.append(cell.as_str());
    assert(spec_spaces(width - length) + spec_spaces(1) =~= spec_spaces(width - length + 1));
    assert(text@ =~= old(text)@ + spec_right_aligned(cell@, width as nat));
}

fn line(row: &Vec<String>, w0: usize, w1: usize, w2: usize, w3: usize) -> (text: String)
    requires
        row@.len() == 4,
        row@[0]@.len() <= w0,
        row@[1]@.len() <= w1,
        row@[2]@.len() <= w2,
        row@[3]@.len() <= w3,
    ensures
        text@ == spec_line(row.deep_view(), seq![w0 as nat, w1 as nat, w2 as nat, w3 as nat]),
{
    let ghost cells = row.deep_view();
    assert(cells[0] == row@[0]@);
    assert(cells[1] == row@[1]@);
    assert(cells[2] == row@[2]@);
    assert(cells[3] == row@[3]@);
    let mut text = String::new();
    text.append(row[0].as_str());
    let length = row[0].as_str().unicode_len();
    pad(&mut text, w0 - length);
    pad(&mut text, 1);
    assert(text@ =~= cells[0] + spec_spaces(w0 - cells[0].len() + 1));
    right_aligned(&mut text, &row[1], w1);
    right_aligned(&mut text, &row[2], w2);
    right_aligned(&mut text, &row[3], w3);
    text
}

/// The rows laid out as a table: one line for each row, the first column
/// aligned on the left, the others on the right.
pub fn layout(rows: &Vec<Vec<String>>) -> (text: String)
    requires
        has_four_columns(rows.deep_view()),
    ensures
        text@ == spec_layout(rows.deep_view()),
{
    let w0 = width(rows, 0);
    let w1 = width(rows, 1);
    let w2 = width(rows, 2);
    let w3 = width(rows, 3);
    let ghost all = rows.deep_view();
    let ghost widths = seq![w0 as nat, w1 as nat, w2 as nat, w3 as nat];
    let mut text = String::new();
    let mut r: usize = 0;
    assert(all.take(0).len() == 0);
    while r < rows.len()
        invariant
            r <= rows.len(),
            all == rows.deep_view(),
            all.len() == rows.len(),
            has_four_columns(all),
            widths == seq![w0 as nat, w1 as nat, w2 as nat, w3 as nat],
            w0 == spec_width(all, 0),
            w1 == spec_width(all, 1),
            w2 == spec_width(all, 2),
            w3 == spec_width(all, 3),
            text@ == spec_lines(all.take(r as int), widths),
        decreases rows.len() - r,
    {
        let row = &rows[r];
        let ghost cells = all[r as int];
        proof {
            assert(cells.len() == 4);
            assert(cells == row.deep_view());
            assert(cells[0] == row@[0]@);
            assert(cells[1] == row@[1]@);
            assert(cells[2] == row@[2]@);
            assert(cells[3] == row@[3]@);
            lemma_width_bounds(all, 0, r as int);
            lemma_width_bounds(all, 1, r as int);
            lemma_width_bounds(all, 2, r as int);
            lemma_width_bounds(all, 3, r as int);
            reveal_strlit("\n");
        }
        let ghost above = text@;
        if r != 0 {
            text.append("\n");
        }
        let next = line(row, w0, w1, w2, w3);
        text.append(next.as_str());
        proof {
            let seen = all.take(r + 1);
            assert(seen.drop_last() =~= all.take(r as int));
            assert(seen.last() == cells);
            if r == 0 {
                assert(text@ =~= spec_line(cells, widths));
            } else {
                assert(text@ =~= above + seq!['\n'] + spec_line(cells, widths));
            }
        }
        r += 1;
    }
    assert(all.take(rows.len() as int) =~= all);
    text
}

/// `rows` are the rows of the table of the tree `node`, one for each of its
/// nodes.
pub open spec fn is_table_of<G: Display, P: Display, FG: Fn(i64) -> G, FP: Fn(PValue) -> P>(
    gain_of: FG,
    p_value_of: FP,
    node: NodeView,
    rows: Seq<Vec<String>>,
) -> bool {
    &&& rows.len() == spec_row_nodes(node).len()
    &&& forall|j: int|
        0 <= j < rows.len() ==> is_row_of(
            gain_of,
            p_value_of,
            #[trigger] spec_row_nodes(node)[j],
            spec_labels(node, Seq::<char>::empty(), Seq::<char>::empty(), Seq::<char>::empty())[j],
            rows[j],
        )
}

/// The cells of the headline of the table.
pub open spec fn spec_header() -> Seq<Seq<char>> {
    seq![""@, "best_split"@, "max_gain"@, "p_value"@]
}

/// The table of a tree: a headline, and below it a line for each node with
/// the name of its interval, its best split, the gain and the p-value.
///
/// `gain_of` turns the score of a gain into what is shown of it, and
/// `p_value_of` a p-value.
pub fn format_table<G: Display, P: Display, FG: Fn(i64) -> G, FP: Fn(PValue) -> P>(
    result: &BinarySegmentationResult,
    gain_of: &FG,
    p_value_of: &FP,
) -> (text: String)
    requires
        forall|score: i64| call_requires(*gain_of, (score,)),
        forall|p_value: PValue| call_requires(*p_value_of, (p_value,)),
    ensures
        exists|rows: Vec<Vec<String>>|
            {
                &&& #[trigger] is_table_of(*gain_of, *p_value_of, result@, rows@)
                &&& text@ == spec_layout(seq![spec_header()] + rows.deep_view())
            },
{
    let mut rows = _format_tree(result, gain_of, p_value_of);
    let ghost below = rows;
    let mut header: Vec<String> = Vec::new();
    header.push(String::from_str(""));
    header.push(String::from_str("best_split"));
    header.push(String::from_str("max_gain"));
    header.push(String::from_str("p_value"));
    assert(header.deep_view() =~= spec_header());
    rows.insert(0, header);
    proof {
        assert(rows.deep_view() =~= seq![spec_header()] + below.deep_view());
        assert forall|r: int| 0 <= r < rows.deep_view().len() implies (
        #[trigger] rows.deep_view()[r]).len() == 4 by {
            if r > 0 {
                assert(rows.deep_view()[r] == below@[r - 1].deep_view());
                assert(is_row_of(
                    *gain_of,
                    *p_value_of,
                    spec_row_nodes(result@)[r - 1],
                    spec_labels(
                        result@,
                        Seq::<char>::empty(),
                        Seq::<char>::empty(),
                        Seq::<char>::empty(),
                    )[r - 1],
                    below@[r - 1],
                ));
            }
        }
    }
    let text = layout(&rows);
    assert(is_table_of(*gain_of, *p_value_of, result@, below@));
    text
}

} // verus!

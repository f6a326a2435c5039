//! The table of lines that a controller offers.

use crate::text::{byte_length, chars_of, push_text};
use crate::text::{contains_text, law_found_inside, law_parts_are_found};
use vstd::prelude::*;
use vstd::utf8::encode_utf8;

verus! {

/// What probing one line found. The latency is already in words.
pub struct LineProbe {
    pub preference: String,
    pub name: String,
    pub name_en: String,
    pub endpoint: Option<String>,
    pub latency: Option<String>,
    pub error: Option<String>,
}

/// The cells of one row.
#[verifier::ext_equal]
pub struct RowView {
    pub id: Seq<char>,
    pub latency: Seq<char>,
    pub endpoint: Seq<char>,
    pub name: Seq<char>,
    pub error: Option<Seq<char>>,
}

impl View for LineProbe {
    type V = RowView;

    open spec fn view(&self) -> RowView {
        RowView {
            id: self.preference@,
            latency: match self.latency {
                Some(text) => text@,
                None => "unreachable"@,
            },
            endpoint: match self.endpoint {
                Some(text) => text@,
                None => "-"@,
            },
            name: self.name@,
            error: match self.error {
                Some(text) => Some(text@),
                None => None,
            },
        }
    }
}

/// The columns whose width adapts.
#[derive(Clone, Copy, PartialEq, Eq, Structural)]
pub enum Column {
    Id,
    Latency,
    Endpoint,
}

impl RowView {
    /// The cell in a column.
    pub open spec fn cell(self, column: Column) -> Seq<char> {
        match column {
            Column::Id => self.id,
            Column::Latency => self.latency,
            Column::Endpoint => self.endpoint,
        }
    }
}

impl LineProbe {
    fn cell(&self, column: Column) -> (text: &str)
        ensures
            text@ == self@.cell(column),
    {
        match column {
            Column::Id => self.preference.as_str(),
            Column::Latency => match &self.latency {
                Some(text) => text.as_str(),
                None => "unreachable",
            },
            Column::Endpoint => match &self.endpoint {
                Some(text) => text.as_str(),
                None => "-",
            },
        }
    }
}

/// The rows of a table.
pub open spec fn rows(probes: Seq<LineProbe>) -> Seq<RowView> {
    probes.map_values(|probe: LineProbe| probe@)
}

/// The heading of a column.
pub open spec fn heading(column: Column) -> Seq<char> {
    match column {
        Column::Id => "ID"@,
        Column::Latency => "LATENCY"@,
        Column::Endpoint => "ENDPOINT"@,
    }
}

fn heading_text(column: Column) -> (text: &'static str)
    ensures
        text@ == heading(column),
{
    match column {
        Column::Id => "ID",
        Column::Latency => "LATENCY",
        Column::Endpoint => "ENDPOINT",
    }
}

/// The width of a column: that of its widest cell, its heading among them.
pub open spec fn column_width(list: Seq<RowView>, column: Column) -> nat
    decreases list.len(),
{
    if list.len() == 0 {
        encode_utf8(heading(column)).len()
    } else {
        let before = column_width(list.drop_last(), column);
        let last = encode_utf8(list.last().cell(column)).len();
        if last > before {
            last
        } else {
            before
        }
    }
}

/// Spaces.
pub open spec fn spaces(count: int) -> Seq<char> {
    Seq::new(
        if count > 0 {
            count as nat
        } else {
            0
        },
        |i: int| ' ',
    )
}

/// A cell filled up with spaces to the width of its column.
pub open spec fn padded(text: Seq<char>, width: nat) -> Seq<char> {
    text + spaces(width - text.len())
}

/// One row of the table.
pub open spec fn row_line(
    id: Seq<char>,
    latency: Seq<char>,
    endpoint: Seq<char>,
    name: Seq<char>,
    widths: (nat, nat, nat),
) -> Seq<char> {
    padded(id, widths.0) + "  "@ + padded(latency, widths.1) + "  "@ + padded(endpoint, widths.2)
        + "  "@ + name + "\n"@
}

/// The line below a row, where probing failed.
pub open spec fn error_line(error: Option<Seq<char>>) -> Seq<char> {
    match error {
        Some(text) => "  error: "@ + text + "\n"@,
        None => Seq::empty(),
    }
}

/// The rows of a table below one another.
pub open spec fn row_lines(list: Seq<RowView>, widths: (nat, nat, nat)) -> Seq<char>
    decreases list.len(),
{
    if list.len() == 0 {
        Seq::empty()
    } else {
        let row = list.last();
        row_lines(list.drop_last(), widths) + row_line(
            row.id,
            row.latency,
            row.endpoint,
            row.name,
            widths,
        ) + error_line(row.error)
    }
}

/// The whole table.
pub open spec fn table(list: Seq<RowView>) -> Seq<char> {
    let widths = (
        column_width(list, Column::Id),
        column_width(list, Column::Latency),
        column_width(list, Column::Endpoint),
    );
    row_line(
        heading(Column::Id),
        heading(Column::Latency),
        heading(Column::Endpoint),
        "NAME"@,
        widths,
    ) + row_lines(list, widths)
}

fn measure(probes: &Vec<LineProbe>, column: Column) -> (width: usize)
    ensures
        width == column_width(rows(probes@), column),
{
    let ghost all = rows(probes@);
    let mut width: usize = byte_length(heading_text(column));
    let mut i: usize = 0;
    assert(all.take(0) =~= Seq::<RowView>::empty());
    while i < probes.len()
        invariant
            i <= probes@.len(),
            all == rows(probes@),
            width == column_width(all.take(i as int), column),
        decreases probes@.len() - i,
    {
        let length: usize = byte_length(probes[i].cell(column));
        proof {
            assert(all.take(i + 1).drop_last() =~= all.take(i as int));
            assert(all.take(i + 1).last() == probes@[i as int]@);
        }
        if length > width {
            width = length;
        }
        i += 1;
    }
    assert(all.take(i as int) =~= all);
    width
}

fn push_padded(out: &mut String, text: &str, width: usize)
    ensures
        final(out)@ == old(out)@ + padded(text@, width as nat),
{
    let chars = chars_of(text);
    push_text(out, text);
    let ghost start = out@;
    let mut length: usize = chars.len();
    assert(start + spaces(0) =~= start);
    while length < width
        invariant
            length >= chars@.len(),
            length <= width || length == chars@.len(),
            out@ == start + spaces(length - chars@.len()),
        decreases width - length,
    {
        out.push(' ');
        assert(start + spaces(length + 1 - chars@.len()) =~= (start + spaces(
            length - chars@.len(),
        )).push(' '));
        length += 1;
    }
    assert(spaces(length - chars@.len()) =~= spaces(width - text@.len()));
    assert(out@ =~= old(out)@ + padded(text@, width as nat));
}

fn push_row(
    out: &mut String,
    id: &str,
    latency: &str,
    endpoint: &str,
    name: &str,
    widths: (usize, usize, usize),
)
    ensures
        final(out)@ == old(out)@ + row_line(
            id@,
            latency@,
            endpoint@,
            name@,
            (widths.0 as nat, widths.1 as nat, widths.2 as nat),
        ),
{
    push_padded(out, id, widths.0);
    push_text(out, "  ");
    push_padded(out, latency, widths.1);
    push_text(out, "  ");
    push_padded(out, endpoint, widths.2);
    push_text(out, "  ");
    push_text(out, name);
    push_text(out, "\n");
    assert(out@ =~= old(out)@ + row_line(
        id@,
        latency@,
        endpoint@,
        name@,
        (widths.0 as nat, widths.1 as nat, widths.2 as nat),
    ));
}

/// Lays probes out as a table whose columns are as wide as they need to be.
pub fn format_line_probes(probes: &Vec<LineProbe>) -> (text: String)
    ensures
        text@ == table(rows(probes@)),
{
    let ghost all = rows(probes@);
    let widths: (usize, usize, usize) = (
        measure(probes, Column::Id),
        measure(probes, Column::Latency),
        measure(probes, Column::Endpoint),
    );
    let ghost spec_widths = (widths.0 as nat, widths.1 as nat, widths.2 as nat);
    let mut text = String::new();
    push_row(&mut text, "ID", "LATENCY", "ENDPOINT", "NAME", widths);
    let ghost head = text@;
    let mut i: usize = 0;
    assert(all.take(0) =~= Seq::<RowView>::empty());
    assert(head + row_lines(all.take(0), spec_widths) =~= head);
    while i < probes.len()
        invariant
            i <= probes@.len(),
            all == rows(probes@),
            spec_widths == (widths.0 as nat, widths.1 as nat, widths.2 as nat),
            text@ == head + row_lines(all.take(i as int), spec_widths),
        decreases probes@.len() - i,
    {
        let probe = &probes[i];
        let ghost before = text@;
        proof {
            assert(all.take(i + 1).drop_last() =~= all.take(i as int));
            assert(all.take(i + 1).last() == probe@);
        }
        push_row(
            &mut text,
            probe.cell(Column::Id),
            probe.cell(Column::Latency),
            probe.cell(Column::Endpoint),
            &probe.name,
            widths,
        );
        if let Some(error) = &probe.error {
            push_text(&mut text, "  error: ");
            push_text(&mut text, error);
            push_text(&mut text, "\n");
        }
        assert(text@ =~= head + row_lines(all.take(i + 1), spec_widths));
        i += 1;
    }
    assert(all.take(i as int) =~= all);
    assert(text@ =~= table(all));
    text
}

proof fn lemma_width_covers(list: Seq<RowView>, column: Column, i: int)
    requires
        0 <= i < list.len(),
    ensures
        encode_utf8(list[i].cell(column)).len() <= column_width(list, column),
        encode_utf8(heading(column)).len() <= column_width(list, column),
    decreases list.len(),
{
    if i < list.len() - 1 {
        lemma_width_covers(list.drop_last(), column, i);
        assert(list.drop_last()[i] == list[i]);
    } else if list.len() > 1 {
        lemma_width_covers(list.drop_last(), column, 0);
    }
}

/// Cells of one character per byte line up: each is padded to its column's
/// width exactly.
pub proof fn law_cells_line_up(list: Seq<RowView>, column: Column, i: int)
    requires
        0 <= i < list.len(),
        vstd::utf8::is_ascii_chars(list[i].cell(column)),
    ensures
        padded(list[i].cell(column), column_width(list, column)).len() == column_width(
            list,
            column,
        ),
{
    lemma_width_covers(list, column, i);
    vstd::utf8::is_ascii_chars_encode_utf8(list[i].cell(column));
}

/// A column is as wide as its widest cell, or its heading.
pub proof fn law_column_width(list: Seq<RowView>, column: Column) -> (i: int)
    ensures
        forall|k: int|
            0 <= k < list.len() ==> encode_utf8((#[trigger] list[k]).cell(column)).len()
                <= column_width(list, column),
        encode_utf8(heading(column)).len() <= column_width(list, column),
        0 <= i < list.len() ==> column_width(list, column) == encode_utf8(
            list[i].cell(column),
        ).len(),
        !(0 <= i < list.len()) ==> column_width(list, column) == encode_utf8(
            heading(column),
        ).len(),
    decreases list.len(),
{
    if list.len() == 0 {
        0
    } else {
        let rest = list.drop_last();
        let found = law_column_width(rest, column);
        assert forall|k: int| 0 <= k < list.len() implies encode_utf8(
            (#[trigger] list[k]).cell(column),
        ).len() <= column_width(list, column) by {
            lemma_width_covers(list, column, k);
        }
        if encode_utf8(list.last().cell(column)).len() > column_width(rest, column) {
            list.len() - 1
        } else if 0 <= found < rest.len() {
            assert(rest[found] == list[found]);
            found
        } else {
            -1
        }
    }
}

proof fn lemma_row_lines_hold(list: Seq<RowView>, widths: (nat, nat, nat), i: int)
    requires
        0 <= i < list.len(),
    ensures
        contains_text(
            row_lines(list, widths),
            row_line(list[i].id, list[i].latency, list[i].endpoint, list[i].name, widths)
                + error_line(list[i].error),
        ),
    decreases list.len(),
{
    let rest = list.drop_last();
    let last = list.last();
    let line = row_line(last.id, last.latency, last.endpoint, last.name, widths) + error_line(
        last.error,
    );
    let before = row_lines(rest, widths);
    assert(row_lines(list, widths) =~= before + line);
    if i == list.len() - 1 {
        law_parts_are_found(before, line, Seq::empty());
        assert(before + line + Seq::<char>::empty() =~= before + line);
    } else {
        assert(rest[i] == list[i]);
        lemma_row_lines_hold(rest, widths, i);
        let part = row_line(list[i].id, list[i].latency, list[i].endpoint, list[i].name, widths)
            + error_line(list[i].error);
        let at = law_found_inside(before, part);
        let tail = before.skip(at + part.len()) + line;
        law_parts_are_found(before.take(at), part, tail);
        assert(before.take(at) + part + tail =~= before + line);
    }
}

/// Each line has a row: its preference, the delay or that it is unreachable, the
/// endpoint or a dash, each filled up to its column's width and followed by two
/// blanks, and its name; and below it what went wrong, if something did.
pub proof fn law_line_rows(probes: &Vec<LineProbe>, text: String, i: int)
    requires
        call_ensures(format_line_probes, (probes,), text),
        0 <= i < probes@.len(),
    ensures
        ({
            let probe = probes@[i];
            let list = rows(probes@);
            let latency = if probe.latency is Some {
                probe.latency->Some_0@
            } else {
                "unreachable"@
            };
            let endpoint = if probe.endpoint is Some {
                probe.endpoint->Some_0@
            } else {
                "-"@
            };
            let row = probe.preference@ + spaces(
                column_width(list, Column::Id) - probe.preference@.len(),
            ) + "  "@ + (latency + spaces(column_width(list, Column::Latency) - latency.len()))
                + "  "@ + (endpoint + spaces(column_width(list, Column::Endpoint) - endpoint.len()))
                + "  "@ + probe.name@ + "\n"@;
            &&& probe.error is None ==> contains_text(text@, row)
            &&& probe.error matches Some(reason) ==> contains_text(
                text@,
                row + ("  error: "@ + reason@ + "\n"@),
            )
        }),
{
    let list = rows(probes@);
    let widths = (
        column_width(list, Column::Id),
        column_width(list, Column::Latency),
        column_width(list, Column::Endpoint),
    );
    let row = list[i];
    assert(row == probes@[i]@);
    lemma_row_lines_hold(list, widths, i);
    let head = row_line("ID"@, "LATENCY"@, "ENDPOINT"@, "NAME"@, widths);
    let part = row_line(row.id, row.latency, row.endpoint, row.name, widths) + error_line(
        row.error,
    );
    let body = row_lines(list, widths);
    let at = law_found_inside(body, part);
    assert(text@ == head + body);
    law_parts_are_found(head + body.take(at), part, body.skip(at + part.len()));
    assert(head + body.take(at) + part + body.skip(at + part.len()) =~= head + body);
    if probes@[i].error is None {
        assert(part =~= row_line(row.id, row.latency, row.endpoint, row.name, widths));
    }
}

} // verus!

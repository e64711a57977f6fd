//! The table: three left-aligned columns sized to the terminal, a header and
//! one line per entry.

use crate::abbreviate::{abbreviate_filename, abbreviated, grapheme_clusters, texts};
use crate::entry::{is_directory, is_directory_entry, views, File, FileView};
use vstd::prelude::*;

verus! {

/// The width assumed where the terminal reports none.
pub const DEFAULT_WIDTH: usize = 80;

/// Columns that the two gaps between the three columns take.
pub const TOTAL_SPACING: usize = 4;

/// The least width of the name column.
pub const MIN_NAME_WIDTH: usize = 20;

/// The least width of the column of absolute times.
pub const MIN_MODIFIED_TIME_WIDTH: usize = 15;

/// The least width of the column of relative times.
pub const MIN_RELATIVE_TIME_WIDTH: usize = 10;

/// The widths of the three columns.
#[derive(Clone, Copy, Debug, PartialEq, Eq, Structural)]
pub struct ColumnWidths {
    pub name: usize,
    pub modified_time: usize,
    pub relative_time: usize,
}

/// The larger of two numbers.
pub open spec fn at_least(floor: int, value: int) -> int {
    if value < floor {
        floor
    } else {
        value
    }
}

/// The width to lay the table out for: the terminal's, or the default.
pub open spec fn effective_width(terminal_width: Option<u16>) -> int {
    match terminal_width {
        Some(width) => width as int,
        None => DEFAULT_WIDTH as int,
    }
}

/// What is left of `width` columns for the three columns once the gaps are
/// taken off; nothing where `width` does not even hold the gaps.
pub open spec fn available_width(width: int) -> int {
    at_least(0, width - TOTAL_SPACING)
}

/// The name column: half of what is available, and no less than its floor.
pub open spec fn name_width(width: int) -> int {
    at_least(MIN_NAME_WIDTH as int, available_width(width) * 5 / 10)
}

/// The column of absolute times: three tenths of what is available, and no
/// less than its floor.
pub open spec fn modified_time_width(width: int) -> int {
    at_least(MIN_MODIFIED_TIME_WIDTH as int, available_width(width) * 3 / 10)
}

/// The column of relative times: what the shares of the other two leave, and
/// no less than its floor.
pub open spec fn relative_time_width(width: int) -> int {
    let available = available_width(width);
    at_least(
        MIN_RELATIVE_TIME_WIDTH as int,
        available - available * 5 / 10 - available * 3 / 10,
    )
}

/// The three widths for a terminal of `width` columns.
pub open spec fn layout(width: int) -> ColumnWidths {
    ColumnWidths {
        name: name_width(width) as usize,
        modified_time: modified_time_width(width) as usize,
        relative_time: relative_time_width(width) as usize,
    }
}

/// Computes the widths of the three columns from the terminal's width.
pub fn column_widths(terminal_width: Option<u16>) -> (widths: ColumnWidths)
    ensures
        widths == layout(effective_width(terminal_width)),
        widths.name == name_width(effective_width(terminal_width)),
        widths.modified_time == modified_time_width(effective_width(terminal_width)),
        widths.relative_time == relative_time_width(effective_width(terminal_width)),
        widths.name >= MIN_NAME_WIDTH,
        widths.modified_time >= MIN_MODIFIED_TIME_WIDTH,
        widths.relative_time >= MIN_RELATIVE_TIME_WIDTH,
{
    let term_width: usize = match terminal_width {
        Some(width) => width as usize,
        None => DEFAULT_WIDTH,
    };
    let available_width: usize = if term_width < TOTAL_SPACING {
        0
    } else {
        term_width - TOTAL_SPACING
    };
    let name_share: usize = (available_width * 5) / 10;
    let modified_time_share: usize = (available_width * 3) / 10;
    let relative_time_share: usize = available_width - name_share - modified_time_share;
    ColumnWidths {
        name: if name_share < MIN_NAME_WIDTH {
            MIN_NAME_WIDTH
        } else {
            name_share
        },
        modified_time: if modified_time_share < MIN_MODIFIED_TIME_WIDTH {
            MIN_MODIFIED_TIME_WIDTH
        } else {
            modified_time_share
        },
        relative_time: if relative_time_share < MIN_RELATIVE_TIME_WIDTH {
            MIN_RELATIVE_TIME_WIDTH
        } else {
            relative_time_share
        },
    }
}

/// No column is ever narrower than its floor. On a terminal of at most 45
/// columns, the sum of the three floors, each column is exactly its floor, and
/// on no wider one are all three.
pub proof fn lemma_width_floors(width: int)
    ensures
        name_width(width) >= MIN_NAME_WIDTH,
        modified_time_width(width) >= MIN_MODIFIED_TIME_WIDTH,
        relative_time_width(width) >= MIN_RELATIVE_TIME_WIDTH,
        width <= MIN_NAME_WIDTH + MIN_MODIFIED_TIME_WIDTH + MIN_RELATIVE_TIME_WIDTH <==> {
            &&& name_width(width) == MIN_NAME_WIDTH
            &&& modified_time_width(width) == MIN_MODIFIED_TIME_WIDTH
            &&& relative_time_width(width) == MIN_RELATIVE_TIME_WIDTH
        },
{
}

/// `count` spaces.
pub open spec fn spaces(count: nat) -> Seq<char> {
    Seq::new(count, |i: int| ' ')
}

/// `text` left-aligned in a field of `width` characters: spaces fill it up on
/// the right, and a longer text is not cut.
pub open spec fn padded(text: Seq<char>, width: nat) -> Seq<char> {
    if text.len() >= width {
        text
    } else {
        text + spaces((width - text.len()) as nat)
    }
}

/// What stands between two columns.
pub open spec fn gap() -> Seq<char> {
    seq![' ', ' ']
}

/// The escape sequence that starts bold text.
pub open spec fn bold_on() -> Seq<char> {
    seq!['\x1b', '[', '1', 'm']
}

/// The escape sequence that starts blue text.
pub open spec fn blue_on() -> Seq<char> {
    seq!['\x1b', '[', '3', '4', 'm']
}

/// The escape sequence that ends a style.
pub open spec fn style_off() -> Seq<char> {
    seq!['\x1b', '[', '0', 'm']
}

/// Three texts as one line of the table, without any styling.
pub open spec fn plain_line(
    first: Seq<char>,
    second: Seq<char>,
    third: Seq<char>,
    widths: ColumnWidths,
) -> Seq<char> {
    padded(first, widths.name as nat) + gap() + padded(second, widths.modified_time as nat) + gap()
        + padded(third, widths.relative_time as nat)
}

/// The three column titles.
pub open spec fn titles() -> (Seq<char>, Seq<char>, Seq<char>) {
    ("Name"@, "Modified Time"@, "Relative Time"@)
}

/// The header: the three titles, in bold on a terminal.
pub open spec fn header_line(widths: ColumnWidths, is_tty: bool) -> Seq<char> {
    let plain = plain_line(titles().0, titles().1, titles().2, widths);
    if is_tty {
        bold_on() + plain + style_off()
    } else {
        plain
    }
}

/// The line of one entry whose name is shown as `shown_name`: the name column
/// is blue for a directory on a terminal, and nothing is styled otherwise.
pub open spec fn entry_line(
    shown_name: Seq<char>,
    absolute_time: Seq<char>,
    relative_time: Seq<char>,
    is_dir: bool,
    widths: ColumnWidths,
    is_tty: bool,
) -> Seq<char> {
    if is_dir && is_tty {
        blue_on() + padded(shown_name, widths.name as nat) + style_off() + gap() + padded(
            absolute_time,
            widths.modified_time as nat,
        ) + gap() + padded(relative_time, widths.relative_time as nat)
    } else {
        plain_line(shown_name, absolute_time, relative_time, widths)
    }
}

/// The line of `file`, its name shortened to the name column.
pub open spec fn file_line(file: FileView, widths: ColumnWidths, is_tty: bool) -> Seq<char> {
    entry_line(
        abbreviated(file.name, grapheme_clusters(file.name), widths.name as nat),
        file.absolute_time,
        file.relative_time,
        is_directory(file),
        widths,
        is_tty,
    )
}

/// The whole table: the header, then one line for each of `files`, in their
/// order.
pub open spec fn table(files: Seq<FileView>, terminal_width: Option<u16>, is_tty: bool) -> Seq<
    Seq<char>,
> {
    let widths = layout(effective_width(terminal_width));
    seq![header_line(widths, is_tty)] + files.map_values(
        |file: FileView| file_line(file, widths, is_tty),
    )
}

/// Whether `text` holds the character that starts an escape sequence.
pub open spec fn has_escape(text: Seq<char>) -> bool {
    text.contains('\x1b')
}

/// Whether none of the texts of `file` that the table shows holds an escape
/// character.
pub open spec fn escape_free(file: FileView) -> bool {
    !has_escape(file.name) && !has_escape(file.absolute_time) && !has_escape(file.relative_time)
}

/// Whether `line` is styled as is due to `file`: for an entry whose own texts
/// hold no escape character, the line holds one exactly where the output is a
/// terminal and the entry is a directory.
pub open spec fn styled_as_due(file: FileView, line: Seq<char>, is_tty: bool) -> bool {
    escape_free(file) ==> (has_escape(line) <==> is_directory(file) && is_tty)
}

/// Appends `text`, left-aligned in a field of `width` characters, to `out`.
fn push_padded(out: &mut String, text: &str, width: usize)
    ensures
        final(out)@ == old(out)@ + padded(text@, width as nat),
{
    let length = text.unicode_len();
    out.append(text);
    let mut filled = length;
    proof {
        reveal_strlit(" ");
        assert(old(out)@ + text@ + spaces(0) =~= old(out)@ + text@);
    }
    while filled < width
        invariant
            length == text@.len(),
            length <= filled,
            filled <= width || filled == length,
            out@ == old(out)@ + text@ + spaces((filled - length) as nat),
            " "@ == seq![' '],
        decreases width - filled,
    {
        out.append(" ");
        assert(spaces((filled - length) as nat) + seq![' '] =~= spaces((filled + 1 - length) as nat));
        filled += 1;
    }
    assert(old(out)@ + text@ + spaces((filled - length) as nat) =~= old(out)@ + padded(
        text@,
        width as nat,
    ));
}

/// Lays three texts out as one unstyled line.
fn plain_line_of(first: &str, second: &str, third: &str, widths: ColumnWidths) -> (line: String)
    ensures
        line@ == plain_line(first@, second@, third@, widths),
{
    let mut line = String::new();
    push_padded(&mut line, first, widths.name);
    line.append("  ");
    push_padded(&mut line, second, widths.modified_time);
    line.append("  ");
    push_padded(&mut line, third, widths.relative_time);
    proof {
        reveal_strlit("  ");
        assert("  "@ =~= gap());
        assert(line@ =~= plain_line(first@, second@, third@, widths));
    }
    line
}

/// Renders the header of the table.
pub fn render_header(widths: ColumnWidths, is_tty: bool) -> (line: String)
    ensures
        line@ == header_line(widths, is_tty),
{
    let plain = plain_line_of("Name", "Modified Time", "Relative Time", widths);
    if is_tty {
        let mut line = String::new();
        line.append("\x1b[1m");
        line.append(plain.as_str());
        line.append("\x1b[0m");
        proof {
            reveal_strlit("\x1b[1m");
            reveal_strlit("\x1b[0m");
            assert("\x1b[1m"@ =~= bold_on());
            assert("\x1b[0m"@ =~= style_off());
            assert(line@ =~= header_line(widths, is_tty));
        }
        line
    } else {
        plain
    }
}

/// Renders the line of one entry from the name as it is to be shown and the two
/// renderings of its modification time.
pub fn render_entry(
    shown_name: &str,
    absolute_time: &str,
    relative_time: &str,
    is_dir: bool,
    widths: ColumnWidths,
    is_tty: bool,
) -> (line: String)
    ensures
        line@ == entry_line(shown_name@, absolute_time@, relative_time@, is_dir, widths, is_tty),
{
    if is_dir && is_tty {
        let mut line = String::new();
        line.append("\x1b[34m");
        push_padded(&mut line, shown_name, widths.name);
        line.append("\x1b[0m");
        line.append("  ");
        push_padded(&mut line, absolute_time, widths.modified_time);
        line.append("  ");
        push_padded(&mut line, relative_time, widths.relative_time);
        proof {
            reveal_strlit("\x1b[34m");
            reveal_strlit("\x1b[0m");
            reveal_strlit("  ");
            assert("\x1b[34m"@ =~= blue_on());
            assert("\x1b[0m"@ =~= style_off());
            assert("  "@ =~= gap());
            assert(line@ =~= entry_line(
                shown_name@,
                absolute_time@,
                relative_time@,
                is_dir,
                widths,
                is_tty,
            ));
        }
        line
    } else {
        plain_line_of(shown_name, absolute_time, relative_time, widths)
    }
}

/// Renders the table for `file_info` as its lines, the header first: each name
/// shortened to the name column, directories in blue and the header in bold
/// where `is_tty` says that the output is a terminal, and no styling at all
/// where it is not.
pub fn print_file_info(file_info: &Vec<File>, terminal_width: Option<u16>, is_tty: bool) -> (lines:
    Vec<String>)
    ensures
        texts(lines@) == table(views(file_info@), terminal_width, is_tty),
        lines@.len() == file_info@.len() + 1,
        has_escape(lines@[0]@) <==> is_tty,
        forall|i: int|
            0 <= i < file_info@.len() ==> styled_as_due(
                file_info@[i]@,
                (#[trigger] lines@[i + 1])@,
                is_tty,
            ),
        !is_tty && (forall|i: int|
            0 <= i < file_info@.len() ==> escape_free((#[trigger] file_info@[i])@)) ==> forall|
            k: int,
        |
            0 <= k < lines@.len() ==> !has_escape((#[trigger] lines@[k])@),
{
    let widths = column_widths(terminal_width);
    let mut lines: Vec<String> = Vec::new();
    lines.push(render_header(widths, is_tty));
    proof {
        lemma_header_styled_only_on_terminal(widths, is_tty);
    }
    let mut i: usize = 0;
    while i < file_info.len()
        invariant
            0 <= i <= file_info.len(),
            widths == layout(effective_width(terminal_width)),
            lines@.len() == i + 1,
            lines@[0]@ == header_line(widths, is_tty),
            forall|j: int|
                0 <= j < i ==> (#[trigger] lines@[j + 1])@ == file_line(
                    file_info@[j]@,
                    widths,
                    is_tty,
                ) && styled_as_due(file_info@[j]@, lines@[j + 1]@, is_tty),
        decreases file_info.len() - i,
    {
        let file = &file_info[i];
        let shown_name = abbreviate_filename(file.name.as_str(), widths.name);
        let line = render_entry(
            shown_name.as_str(),
            file.absolute_time.as_str(),
            file.relative_time.as_str(),
            is_directory_entry(file),
            widths,
            is_tty,
        );
        proof {
            if escape_free(file@) {
                assert(!has_escape(shown_name@)) by {
                    if has_escape(shown_name@) {
                        assert(shown_name@.contains('\x1b'));
                    }
                }
                lemma_color_only_on_terminal(
                    shown_name@,
                    file.absolute_time@,
                    file.relative_time@,
                    is_directory(file@),
                    widths,
                    is_tty,
                );
            }
        }
        lines.push(line);
        i += 1;
    }
    assert forall|k: int|
        !is_tty && (forall|i: int|
            0 <= i < file_info@.len() ==> escape_free((#[trigger] file_info@[i])@)) && 0 <= k
            < lines@.len() implies !has_escape((#[trigger] lines@[k])@) by {
        if k > 0 {
            assert(escape_free(file_info@[k - 1]@));
            assert(styled_as_due(file_info@[k - 1]@, lines@[(k - 1) + 1]@, is_tty));
        }
    }
    assert(texts(lines@) =~= table(views(file_info@), terminal_width, is_tty)) by {
        let expected = table(views(file_info@), terminal_width, is_tty);
        assert forall|k: int| 0 <= k < expected.len() implies texts(lines@)[k] == expected[k] by {
            if k > 0 {
                assert(lines@[(k - 1) + 1]@ == file_line(file_info@[k - 1]@, widths, is_tty));
            }
        }
    }
    lines
}

/// A line of the table holds the character that starts an escape sequence only
/// where the output is a terminal and the entry is a directory, for an entry
/// whose own texts hold none: where the output is no terminal nothing is
/// styled, whatever the widths.
pub proof fn lemma_color_only_on_terminal(
    shown_name: Seq<char>,
    absolute_time: Seq<char>,
    relative_time: Seq<char>,
    is_dir: bool,
    widths: ColumnWidths,
    is_tty: bool,
)
    requires
        !has_escape(shown_name),
        !has_escape(absolute_time),
        !has_escape(relative_time),
    ensures
        has_escape(entry_line(shown_name, absolute_time, relative_time, is_dir, widths, is_tty))
            <==> is_dir && is_tty,
        !is_tty ==> entry_line(shown_name, absolute_time, relative_time, is_dir, widths, is_tty)
            == plain_line(shown_name, absolute_time, relative_time, widths),
        is_dir && is_tty ==> entry_line(
            shown_name,
            absolute_time,
            relative_time,
            is_dir,
            widths,
            is_tty,
        ) == blue_on() + padded(shown_name, widths.name as nat) + style_off() + gap() + padded(
            absolute_time,
            widths.modified_time as nat,
        ) + gap() + padded(relative_time, widths.relative_time as nat),
{
    let line = entry_line(shown_name, absolute_time, relative_time, is_dir, widths, is_tty);
    if is_dir && is_tty {
        assert(line[0] == '\x1b');
    } else {
        lemma_padded_escape(shown_name, widths.name as nat);
        lemma_padded_escape(absolute_time, widths.modified_time as nat);
        lemma_padded_escape(relative_time, widths.relative_time as nat);
        let a = padded(shown_name, widths.name as nat);
        let b = padded(absolute_time, widths.modified_time as nat);
        let c = padded(relative_time, widths.relative_time as nat);
        if has_escape(line) {
            let k = choose|k: int| 0 <= k < line.len() && line[k] == '\x1b';
            if k < a.len() {
                assert(a[k] == '\x1b');
            } else if k < a.len() + 2 {
                assert(gap()[k - a.len()] == '\x1b');
            } else if k < a.len() + 2 + b.len() {
                assert(b[k - a.len() - 2] == '\x1b');
            } else if k < a.len() + 2 + b.len() + 2 {
                assert(gap()[k - a.len() - 2 - b.len()] == '\x1b');
            } else {
                assert(c[k - a.len() - 2 - b.len() - 2] == '\x1b');
            }
        }
    }
}

/// The header holds an escape character exactly where the output is a
/// terminal.
pub proof fn lemma_header_styled_only_on_terminal(widths: ColumnWidths, is_tty: bool)
    ensures
        has_escape(header_line(widths, is_tty)) <==> is_tty,
{
    reveal_strlit("Name");
    reveal_strlit("Modified Time");
    reveal_strlit("Relative Time");
    let plain = plain_line(titles().0, titles().1, titles().2, widths);
    assert(!has_escape(titles().0));
    assert(!has_escape(titles().1));
    assert(!has_escape(titles().2));
    lemma_color_only_on_terminal(titles().0, titles().1, titles().2, false, widths, false);
    assert(!has_escape(plain));
    if is_tty {
        assert(header_line(widths, is_tty)[0] == '\x1b');
    }
}

/// Padding adds no escape character.
proof fn lemma_padded_escape(text: Seq<char>, width: nat)
    requires
        !has_escape(text),
    ensures
        !has_escape(padded(text, width)),
{
    let field = padded(text, width);
    if has_escape(field) {
        let k = choose|k: int| 0 <= k < field.len() && field[k] == '\x1b';
        if k < text.len() {
            assert(text[k] == '\x1b');
        }
    }
}

} // verus!

use vstd::prelude::*;

verus! {

/// The semantic emphasis of a display cell.  Purely advisory for rendering;
/// it never affects a computed value.
#[derive(Clone, Copy, Debug, PartialEq, Eq, Structural)]
pub enum CellStyle {
    /// Plain text.
    Neutral,
    /// A highlighted figure (counts, timings, throughput).
    Highlight,
    /// A figure reporting success.
    Success,
    /// A figure reporting failure.
    Failure,
}

/// One display cell: its text and its advisory emphasis.
#[derive(Clone, Debug)]
pub struct Cell {
    pub text: String,
    pub style: CellStyle,
}

impl View for Cell {
    type V = (Seq<char>, CellStyle);

    open spec fn view(&self) -> (Seq<char>, CellStyle) {
        (self.text@, self.style)
    }
}

impl Cell {
    pub fn new(text: String, style: CellStyle) -> (c: Cell)
        ensures
            c@ == (text@, style),
    {
        Cell { text, style }
    }
}

/// The cells of one row, as their texts and styles in order.
pub open spec fn row_view(r: Vec<Cell>) -> Seq<(Seq<char>, CellStyle)> {
    r@.map_values(|c: Cell| c@)
}

/// The headers of a table, as their texts in order.
pub open spec fn headers_view(h: Vec<String>) -> Seq<Seq<char>> {
    h@.map_values(|s: String| s@)
}

/// A comparison table: ordered column headers over ordered rows of cells.
/// Rows may be ragged; a missing trailing cell renders blank.
#[derive(Clone, Debug)]
pub struct Table {
    pub headers: Vec<String>,
    pub rows: Vec<Vec<Cell>>,
}

/// A separator line: the title padded with `-` up to `width` characters; a
/// title already that wide stands alone.
pub open spec fn separator_text(title: Seq<char>, width: nat) -> Seq<char> {
    if title.len() >= width {
        title
    } else {
        title + Seq::new((width - title.len()) as nat, |i: int| '-')
    }
}

/// The separator line over a display of `width` columns.
pub fn separator_line(title: &str, width: u16) -> (s: String)
    ensures
        s@ == separator_text(title@, width as nat),
{
    let len = title.unicode_len();
    let mut s = String::from_str(title);
    if len >= width as usize {
        return s;
    }
    proof {
        reveal_strlit("-");
        assert("-"@ =~= seq!['-']);
    }
    let mut i: usize = len;
    while i < width as usize
        invariant
            len <= i <= width as usize,
            len == title@.len(),
            s@ == title@ + Seq::new((i - len) as nat, |k: int| '-'),
        decreases width as usize - i,
    {
        s.append("-");
        proof {
            reveal_strlit("-");
            assert(s@ =~= title@ + Seq::new((i + 1 - len) as nat, |k: int| '-'));
        }
        i = i + 1;
    }
    s
}

} // verus!

//! The text form of a board: eight lines of eight characters, a digit for
//! the fish of a floe or the letter of the team whose penguin stands on it.

use super::board::Board;
use super::cells::{cells_into_inner, cells_len, cells_new, cells_of, cells_try_push};
use super::error::ParseError;
use super::field::{Field, FieldView};
use super::rules::BoardView;
use super::team::Team;
use vstd::prelude::*;
use vstd::string::{StrSliceExecFns, StringExecFns};

verus! {

/// The character of a decimal digit.
pub open spec fn digit_char(d: int) -> char {
    if d == 0 {
        '0'
    } else if d == 1 {
        '1'
    } else if d == 2 {
        '2'
    } else if d == 3 {
        '3'
    } else if d == 4 {
        '4'
    } else if d == 5 {
        '5'
    } else if d == 6 {
        '6'
    } else if d == 7 {
        '7'
    } else if d == 8 {
        '8'
    } else {
        '9'
    }
}

/// The value of a decimal digit, if the character is one.
pub open spec fn digit_value(c: char) -> Option<nat> {
    if c == '0' {
        Some(0)
    } else if c == '1' {
        Some(1)
    } else if c == '2' {
        Some(2)
    } else if c == '3' {
        Some(3)
    } else if c == '4' {
        Some(4)
    } else if c == '5' {
        Some(5)
    } else if c == '6' {
        Some(6)
    } else if c == '7' {
        Some(7)
    } else if c == '8' {
        Some(8)
    } else if c == '9' {
        Some(9)
    } else {
        None
    }
}

/// The decimal digits of a number, without leading zeros.
pub open spec fn decimal(n: nat) -> Seq<char>
    decreases n,
{
    if n < 10 {
        seq![digit_char(n as int)]
    } else {
        decimal(n / 10).push(digit_char((n % 10) as int))
    }
}

/// The text of a field: the letter of the penguin's team, or the number of
/// fish.
pub open spec fn field_text(f: FieldView) -> Seq<char> {
    match f.penguin {
        Some(team) => seq![team.spec_letter()],
        None => decimal(f.fish),
    }
}

/// The text of the first `n` fields of a board, with a line break after
/// every eighth.
pub open spec fn board_text(b: BoardView, n: int) -> Seq<char>
    decreases n,
{
    if n <= 0 {
        Seq::empty()
    } else if n % 8 == 0 {
        (board_text(b, n - 1) + field_text(b[n - 1])).push('\n')
    } else {
        board_text(b, n - 1) + field_text(b[n - 1])
    }
}

/// Whether the character separates lines and stands for no field.
pub open spec fn is_line_break(c: char) -> bool {
    c == '\n' || c == '\r'
}

/// The field that a character stands for, if any.
pub open spec fn parse_field(c: char) -> Option<FieldView> {
    match digit_value(c) {
        Some(fish) => Some(FieldView { fish, penguin: None }),
        None => match Team::spec_with_letter(c) {
            Some(team) => Some(FieldView::placed(team)),
            None => None,
        },
    }
}

/// Where a scan of a board text stands: the fields read so far, how many of
/// them in the row at hand, and whether a carriage return waits for its
/// line feed.
pub struct Scan {
    pub fields: BoardView,
    pub col: nat,
    pub cr: bool,
}

/// The scan after one more character, or the fault that the character is.
/// A line feed ends a row of eight fields and is skipped on an empty line; a
/// carriage return may only stand before a line feed; any other character
/// must stand for a field, which must not be the ninth of its row, nor the
/// first of a ninth row.
pub open spec fn scan_step(at: Scan, c: char) -> Result<Scan, ParseError> {
    if c == '\n' {
        if at.col == 0 || at.col == 8 {
            Ok(Scan { fields: at.fields, col: 0, cr: false })
        } else {
            Err(ParseError::WrongFieldCount)
        }
    } else if at.cr {
        Err(ParseError::InvalidField('\r'))
    } else if c == '\r' {
        Ok(Scan { fields: at.fields, col: at.col, cr: true })
    } else {
        match parse_field(c) {
            None => Err(ParseError::InvalidField(c)),
            Some(field) => if at.col >= 8 {
                Err(ParseError::WrongFieldCount)
            } else if at.fields.len() >= 64 {
                Err(ParseError::WrongRowCount)
            } else {
                Ok(Scan { fields: at.fields.push(field), col: at.col + 1, cr: false })
            },
        }
    }
}

/// The scan of the first `n` characters of a text, or the first fault among
/// them.
pub open spec fn scan(text: Seq<char>, n: int) -> Result<Scan, ParseError>
    decreases n,
{
    if n <= 0 {
        Ok(Scan { fields: Seq::empty(), col: 0, cr: false })
    } else {
        match scan(text, n - 1) {
            Err(e) => Err(e),
            Ok(at) => scan_step(at, text[n - 1]),
        }
    }
}

/// What the end of the text makes of a scan: the board, if the last row is
/// whole and there are eight rows.
pub open spec fn scan_end(at: Scan) -> Result<BoardView, ParseError> {
    if at.cr {
        Err(ParseError::InvalidField('\r'))
    } else if at.col != 0 && at.col != 8 {
        Err(ParseError::WrongFieldCount)
    } else if at.fields.len() != 64 {
        Err(ParseError::WrongRowCount)
    } else {
        Ok(at.fields)
    }
}

/// The board that a text stands for: eight rows of eight fields, one row to
/// a line. Lines end with a line feed, or with a carriage return and a line
/// feed; the last line need not end, and empty lines are skipped.
pub open spec fn parse_board(text: Seq<char>) -> Result<BoardView, ParseError> {
    match scan(text, text.len() as int) {
        Err(e) => Err(e),
        Ok(at) => scan_end(at),
    }
}

/// Whether the text of the board reads back: every field is valid and has
/// at most nine fish, so that it takes one character.
pub open spec fn printable(b: BoardView) -> bool {
    &&& b.len() == 64
    &&& forall|k: int| 0 <= k < 64 ==> (#[trigger] b[k]).wf() && b[k].fish <= 9
}

/// What a scan finds among the first `n` characters depends on these alone.
pub proof fn lemma_scan_prefix(a: Seq<char>, b: Seq<char>, n: int)
    requires
        0 <= n <= a.len(),
        n <= b.len(),
        forall|k: int| 0 <= k < n ==> a[k] == b[k],
    ensures
        scan(a, n) == scan(b, n),
    decreases n,
{
    if n > 0 {
        lemma_scan_prefix(a, b, n - 1);
    }
}

/// The text of a field with at most nine fish is one character, which
/// stands for the field and is no line break.
pub proof fn lemma_field_text(f: FieldView)
    requires
        f.wf(),
        f.fish <= 9,
    ensures
        field_text(f).len() == 1,
        parse_field(field_text(f)[0]) == Some(f),
        !is_line_break(field_text(f)[0]),
{
}

/// The scan of the text of the first `n` fields has read these fields, and
/// stands at the start of a row after every eighth.
pub proof fn lemma_scan_board_text(b: BoardView, n: int)
    requires
        printable(b),
        0 <= n <= 64,
    ensures
        scan(board_text(b, n), board_text(b, n).len() as int) == Ok::<Scan, ParseError>(
            Scan { fields: b.subrange(0, n), col: (n % 8) as nat, cr: false },
        ),
    decreases n,
{
    let text = board_text(b, n);
    if n == 0 {
        assert(b.subrange(0, 0) =~= Seq::<FieldView>::empty());
    } else {
        let before = board_text(b, n - 1);
        lemma_scan_board_text(b, n - 1);
        lemma_field_text(b[n - 1]);
        let len = before.len() as int;
        lemma_scan_prefix(before, text, len);
        let c = field_text(b[n - 1])[0];
        assert(text[len] == c);
        assert(b.subrange(0, n - 1).push(b[n - 1]) =~= b.subrange(0, n));
        let at = Scan { fields: b.subrange(0, n - 1), col: ((n - 1) % 8) as nat, cr: false };
        assert(scan(text, len) == Ok::<Scan, ParseError>(at));
        let next = Scan { fields: b.subrange(0, n), col: ((n - 1) % 8 + 1) as nat, cr: false };
        assert(scan_step(at, c) == Ok::<Scan, ParseError>(next));
        assert(scan(text, len + 1) == Ok::<Scan, ParseError>(next));
        if n % 8 == 0 {
            assert(text[len + 1] == '\n');
            assert(text.len() == len + 2);
            assert(next.col == 8);
        } else {
            assert(text.len() == len + 1);
        }
    }
}

/// Round trip: the text of a board whose fields take one character each
/// reads back as the same board.
pub proof fn lemma_round_trip(b: BoardView)
    requires
        printable(b),
    ensures
        parse_board(board_text(b, 64)) == Ok::<BoardView, ParseError>(b),
{
    lemma_scan_board_text(b, 64);
    assert(b.subrange(0, 64) =~= b);
    assert(scan_end(Scan { fields: b, col: 0, cr: false }) == Ok::<BoardView, ParseError>(b));
}

/// Round trip of a board: whatever reads the text of a board whose fields
/// take one character each as `parse` does, reads that very board.
pub proof fn lemma_parse_format(board: Board, read: Result<Board, ParseError>)
    requires
        printable(board@),
        match parse_board(board_text(board@, 64)) {
            Ok(fields) => read is Ok && read->Ok_0@ == fields,
            Err(e) => read == Err::<Board, ParseError>(e),
        },
    ensures
        read == Ok::<Board, ParseError>(board),
{
    lemma_round_trip(board@);
    Board::lemma_view_injective(read->Ok_0, board);
}

/// The text of a decimal digit.
fn digit_str(d: usize) -> (r: &'static str)
    requires
        d < 10,
    ensures
        r@ == seq![digit_char(d as int)],
{
    proof {
        reveal_strlit("0");
        reveal_strlit("1");
        reveal_strlit("2");
        reveal_strlit("3");
        reveal_strlit("4");
        reveal_strlit("5");
        reveal_strlit("6");
        reveal_strlit("7");
        reveal_strlit("8");
        reveal_strlit("9");
    }
    let r = if d == 0 {
        "0"
    } else if d == 1 {
        "1"
    } else if d == 2 {
        "2"
    } else if d == 3 {
        "3"
    } else if d == 4 {
        "4"
    } else if d == 5 {
        "5"
    } else if d == 6 {
        "6"
    } else if d == 7 {
        "7"
    } else if d == 8 {
        "8"
    } else {
        "9"
    };
    assert(r@ =~= seq![digit_char(d as int)]);
    r
}

/// Appends the decimal digits of a number.
fn push_decimal(out: &mut String, n: usize)
    ensures
        final(out)@ == old(out)@ + decimal(n as nat),
    decreases n,
{
    if n >= 10 {
        push_decimal(out, n / 10);
    }
    out.append(digit_str(n % 10));
    assert(out@ =~= old(out)@ + decimal(n as nat));
}

impl Team {
    /// The letter of the team as a text.
    pub fn letter_str(self) -> (r: &'static str)
        ensures
            r@ == seq![self.spec_letter()],
    {
        proof {
            reveal_strlit("R");
            reveal_strlit("B");
        }
        let r = match self {
            Team::One => "R",
            Team::Two => "B",
        };
        assert(r@ =~= seq![self.spec_letter()]);
        r
    }
}

impl Field {
    /// The field that a character stands for: a digit is a number of fish,
    /// the letter of a team a penguin of that team.
    pub fn from_char(c: char) -> (r: Result<Field, ParseError>)
        ensures
            match parse_field(c) {
                Some(field) => r is Ok && r->Ok_0@ == field,
                None => r == Err::<Field, ParseError>(ParseError::InvalidField(c)),
            },
    {
        let fish: Option<usize> = if c == '0' {
            Some(0)
        } else if c == '1' {
            Some(1)
        } else if c == '2' {
            Some(2)
        } else if c == '3' {
            Some(3)
        } else if c == '4' {
            Some(4)
        } else if c == '5' {
            Some(5)
        } else if c == '6' {
            Some(6)
        } else if c == '7' {
            Some(7)
        } else if c == '8' {
            Some(8)
        } else if c == '9' {
            Some(9)
        } else {
            None
        };
        match fish {
            Some(n) => Ok(Field::with_fish(n)),
            None => match Team::with_letter(c) {
                Some(team) => Ok(Field::with_penguin(team)),
                None => Err(ParseError::InvalidField(c)),
            },
        }
    }

    /// The text of the field: the letter of the penguin's team, or the
    /// number of fish.
    pub fn to_text(&self) -> (r: String)
        ensures
            r@ == field_text(self@),
    {
        let mut out = String::new();
        match self.penguin() {
            Some(team) => {
                out.append(team.letter_str());
            },
            None => {
                push_decimal(&mut out, self.fish());
            },
        }
        assert(out@ =~= field_text(self@));
        out
    }
}

impl Board {
    /// Reads a board from its text: eight rows of eight fields, one row to a
    /// line. Empty lines are skipped.
    pub fn parse(text: &str) -> (r: Result<Board, ParseError>)
        ensures
            match parse_board(text@) {
                Ok(fields) => r is Ok && r->Ok_0@ == fields,
                Err(e) => r == Err::<Board, ParseError>(e),
            },
    {
        let len = text.unicode_len();
        let mut list = cells_new();
        let mut col: usize = 0;
        let mut cr = false;
        let ghost mut found: BoardView = Seq::empty();
        let mut i: usize = 0;
        while i < len
            invariant
                i <= len == text@.len(),
                scan(text@, i as int) == Ok::<Scan, ParseError>(
                    Scan { fields: found, col: col as nat, cr },
                ),
                found.len() == cells_of(list).len(),
                found.len() <= 64,
                col <= 8,
                forall|k: int| 0 <= k < found.len() ==> (#[trigger] cells_of(list)[k]).1@ == found[k],
            decreases len - i,
        {
            let c = text.get_char(i);
            let ghost at = Scan { fields: found, col: col as nat, cr };
            let mut fault: Option<ParseError> = None;
            if c == '\n' {
                if col == 0 || col == 8 {
                    col = 0;
                    cr = false;
                } else {
                    fault = Some(ParseError::WrongFieldCount);
                }
            } else if cr {
                fault = Some(ParseError::InvalidField('\r'));
            } else if c == '\r' {
                cr = true;
            } else {
                match Field::from_char(c) {
                    Err(e) => {
                        fault = Some(e);
                    },
                    Ok(field) => {
                        let n = cells_len(&list);
                        if col >= 8 {
                            fault = Some(ParseError::WrongFieldCount);
                        } else if n >= 64 {
                            fault = Some(ParseError::WrongRowCount);
                        } else {
                            let pushed = cells_try_push(&mut list, (Board::doubled_for(n), field));
                            col = col + 1;
                            proof {
                                found = found.push(field@);
                            }
                        }
                    },
                }
            }
            match fault {
                Some(e) => {
                    proof {
                        assert(scan_step(at, c) == Err::<Scan, ParseError>(e));
                        lemma_scan_fault(text@, i as int + 1, text@.len() as int);
                    }
                    return Err(e);
                },
                None => {
                    assert(scan_step(at, c) == Ok::<Scan, ParseError>(
                        Scan { fields: found, col: col as nat, cr },
                    ));
                },
            }
            i = i + 1;
        }
        if cr {
            return Err(ParseError::InvalidField('\r'));
        }
        if col != 0 && col != 8 {
            return Err(ParseError::WrongFieldCount);
        }
        match cells_into_inner(list) {
            None => Err(ParseError::WrongRowCount),
            Some(cells) => {
                let mut fields = [Field::empty();64];
                let mut k: usize = 0;
                while k < 64
                    invariant
                        k <= 64,
                        found.len() == 64,
                        forall|j: int| 0 <= j < 64 ==> (#[trigger] cells@[j]).1@ == found[j],
                        forall|j: int| 0 <= j < k ==> (#[trigger] fields@[j])@ == found[j],
                    decreases 64 - k,
                {
                    fields[k] = cells[k].1;
                    k = k + 1;
                }
                let board = Board::new(fields);
                assert(board@ =~= found);
                Ok(board)
            },
        }
    }

    /// The text of the board: eight lines of eight fields.
    pub fn format(&self) -> (r: String)
        ensures
            r@ == board_text(self@, 64),
    {
        let mut out = String::new();
        let mut i: usize = 0;
        while i < 64
            invariant
                i <= 64,
                out@ == board_text(self@, i as int),
            decreases 64 - i,
        {
            let field = self.nth(i);
            let text = field.to_text();
            out.append(text.as_str());
            i = i + 1;
            if i % 8 == 0 {
                proof {
                    reveal_strlit("\n");
                }
                out.append("\n");
                assert(out@ =~= board_text(self@, i as int));
            } else {
                assert(out@ =~= board_text(self@, i as int));
            }
        }
        out
    }
}

/// A fault among the first characters of a text is the fault of every
/// longer scan.
pub proof fn lemma_scan_fault(text: Seq<char>, n: int, m: int)
    requires
        0 <= n <= m,
        scan(text, n) is Err,
    ensures
        scan(text, m) == scan(text, n),
    decreases m - n,
{
    if n < m {
        lemma_scan_fault(text, n, m - 1);
    }
}

impl core::str::FromStr for Board {
    type Err = ParseError;

    fn from_str(s: &str) -> (r: Result<Self, ParseError>)
        ensures
            match parse_board(s@) {
                Ok(fields) => r is Ok && r->Ok_0@ == fields,
                Err(e) => r == Err::<Board, ParseError>(e),
            },
    {
        Board::parse(s)
    }
}

} // verus!

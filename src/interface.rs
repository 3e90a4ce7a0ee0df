use vstd::prelude::*;

use crate::board::{column_at, ColumnLetter, Coordinates, COLUMN_NOT_A_LETTER};
use crate::fen::{lower_char, parse_char_to_int, INVALID_ROW};

verus! {

pub const INCORRECT_LENGTH: &'static str = "incorrect length";

/// A file letter in either case.
pub open spec fn is_column_char(c: char) -> bool {
    ('a' <= c && c <= 'h') || ('A' <= c && c <= 'H')
}

/// Reads a square written as a file letter in either case and a rank digit 1 to 8.
pub fn parse_square(input_string: &str) -> (r: Result<Coordinates, &'static str>)
    ensures
        match r {
            Ok(c) => input_string@.len() == 2 && is_column_char(input_string@[0]) && '1'
                <= input_string@[1] <= '8' && c == (Coordinates {
                letter: column_at((lower_char(input_string@[0]) as int) - ('a' as int)),
                number: ((input_string@[1] as int) - ('0' as int)) as isize,
            }),
            Err(e) => if input_string@.len() != 2 {
                e@ == INCORRECT_LENGTH@
            } else if !is_column_char(input_string@[0]) {
                e@ == COLUMN_NOT_A_LETTER@
            } else {
                !('1' <= input_string@[1] <= '8') && e@ == INVALID_ROW@
            },
        },
{
    if input_string.unicode_len() != 2 {
        return Err(INCORRECT_LENGTH);
    }
    let col = match ColumnLetter::convert_to(input_string.get_char(0)) {
        Ok(col_letter) => col_letter,
        Err(col_error) => {
            return Err(col_error);
        },
    };
    let row = match parse_char_to_int(input_string.get_char(1)) {
        Ok(row_number) => row_number,
        Err(row_error) => {
            return Err(row_error);
        },
    };
    Ok(Coordinates { letter: col, number: row })
}

} // verus!

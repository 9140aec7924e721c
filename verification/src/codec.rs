//! The coordinate codec: converting between two-character square notation
//! (file letter 'A'..'H' followed by rank digit '1'..'8') and the flat board
//! index 0..63, row-major with rank 1 at indices 0..7 and file A at index 0.

use vstd::prelude::*;

verus! {

/// The file encoded by a notation letter, or -1 if the character is not a
/// file letter.
pub open spec fn file_value(c: char) -> int {
    if c == 'A' {
        0
    } else if c == 'B' {
        1
    } else if c == 'C' {
        2
    } else if c == 'D' {
        3
    } else if c == 'E' {
        4
    } else if c == 'F' {
        5
    } else if c == 'G' {
        6
    } else if c == 'H' {
        7
    } else {
        -1
    }
}

/// The rank encoded by a notation digit (0-based), or -1 if the character is
/// not a rank digit.
pub open spec fn rank_value(c: char) -> int {
    if c == '1' {
        0
    } else if c == '2' {
        1
    } else if c == '3' {
        2
    } else if c == '4' {
        3
    } else if c == '5' {
        4
    } else if c == '6' {
        5
    } else if c == '7' {
        6
    } else if c == '8' {
        7
    } else {
        -1
    }
}

/// The notation letter of a file 0..7.
pub open spec fn file_char(f: int) -> char {
    if f == 0 {
        'A'
    } else if f == 1 {
        'B'
    } else if f == 2 {
        'C'
    } else if f == 3 {
        'D'
    } else if f == 4 {
        'E'
    } else if f == 5 {
        'F'
    } else if f == 6 {
        'G'
    } else {
        'H'
    }
}

/// The notation digit of a rank 0..7.
pub open spec fn rank_char(r: int) -> char {
    if r == 0 {
        '1'
    } else if r == 1 {
        '2'
    } else if r == 2 {
        '3'
    } else if r == 3 {
        '4'
    } else if r == 4 {
        '5'
    } else if r == 5 {
        '6'
    } else if r == 6 {
        '7'
    } else {
        '8'
    }
}

/// A well-formed square notation: exactly a file letter then a rank digit.
pub open spec fn valid_notation(s: Seq<char>) -> bool {
    &&& s.len() == 2
    &&& file_value(s[0]) >= 0
    &&& rank_value(s[1]) >= 0
}

/// The square index a well-formed notation denotes.
pub open spec fn square_of(s: Seq<char>) -> int {
    rank_value(s[1]) * 8 + file_value(s[0])
}

/// The notation of a square index 0..63.
pub open spec fn notation_of(s: int) -> Seq<char> {
    seq![file_char(s % 8), rank_char(s / 8)]
}

/// Converts standard chess notation into a board index. The input must be
/// well formed; `parse_coordinate` is the checked form.
pub fn as_coordinate(input: &String) -> (r: usize)
    requires
        valid_notation(input@),
    ensures
        r == square_of(input@),
        r < 64,
{
    let s = input.as_str();
    let file: usize = match s.get_char(0) {
        'A' => 0,
        'B' => 1,
        'C' => 2,
        'D' => 3,
        'E' => 4,
        'F' => 5,
        'G' => 6,
        _ => 7,
    };
    let rank: usize = match s.get_char(1) {
        '1' => 0,
        '2' => 1,
        '3' => 2,
        '4' => 3,
        '5' => 4,
        '6' => 5,
        '7' => 6,
        _ => 7,
    };
    rank * 8 + file
}

/// Converts standard chess notation into a board index, rejecting malformed
/// input. This is how callers distinguish unparseable notation from a move
/// that the rules refuse.
pub fn parse_coordinate(input: &String) -> (r: Option<usize>)
    ensures
        r is Some <==> valid_notation(input@),
        r matches Some(i) ==> i == square_of(input@) && i < 64,
{
    let s = input.as_str();
    if s.unicode_len() != 2 {
        return None;
    }
    let file: usize = match s.get_char(0) {
        'A' => 0,
        'B' => 1,
        'C' => 2,
        'D' => 3,
        'E' => 4,
        'F' => 5,
        'G' => 6,
        'H' => 7,
        _ => { return None; },
    };
    let rank: usize = match s.get_char(1) {
        '1' => 0,
        '2' => 1,
        '3' => 2,
        '4' => 3,
        '5' => 4,
        '6' => 5,
        '7' => 6,
        '8' => 7,
        _ => { return None; },
    };
    Some(rank * 8 + file)
}

/// Converts a board index into standard chess notation.
pub fn as_standard_notation(input: &usize) -> (r: String)
    requires
        *input < 64,
    ensures
        r@ == notation_of(*input as int),
{
    let file: &str = match *input % 8 {
        0 => "A",
        1 => "B",
        2 => "C",
        3 => "D",
        4 => "E",
        5 => "F",
        6 => "G",
        _ => "H",
    };
    let rank: &str = match *input / 8 {
        0 => "1",
        1 => "2",
        2 => "3",
        3 => "4",
        4 => "5",
        5 => "6",
        6 => "7",
        _ => "8",
    };
    proof {
        reveal_strlit("A");
        reveal_strlit("B");
        reveal_strlit("C");
        reveal_strlit("D");
        reveal_strlit("E");
        reveal_strlit("F");
        reveal_strlit("G");
        reveal_strlit("H");
        reveal_strlit("1");
        reveal_strlit("2");
        reveal_strlit("3");
        reveal_strlit("4");
        reveal_strlit("5");
        reveal_strlit("6");
        reveal_strlit("7");
        reveal_strlit("8");
    }
    let r = String::from_str(file).concat(rank);
    proof {
        assert(r@ =~= notation_of(*input as int));
    }
    r
}

/// Coordinate round trip, one way: every square survives conversion to
/// notation and back.
pub proof fn lemma_square_round_trip(s: int)
    requires
        0 <= s < 64,
    ensures
        valid_notation(notation_of(s)),
        square_of(notation_of(s)) == s,
{
}

/// Coordinate round trip, the other way: every well-formed notation survives
/// conversion to a square and back.
pub proof fn lemma_notation_round_trip(n: Seq<char>)
    requires
        valid_notation(n),
    ensures
        0 <= square_of(n) < 64,
        notation_of(square_of(n)) == n,
{
    assert(notation_of(square_of(n)) =~= n);
}

} // verus!

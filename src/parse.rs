//! Algebraic square names.
use vstd::prelude::*;
use vstd::string::StrSliceExecFns;
use crate::defs::Square;

verus! {

/// The letter of file `f`, `a` for file 0.
pub open spec fn file_char(f: int) -> char {
    if f == 0 {
        'a'
    } else if f == 1 {
        'b'
    } else if f == 2 {
        'c'
    } else if f == 3 {
        'd'
    } else if f == 4 {
        'e'
    } else if f == 5 {
        'f'
    } else if f == 6 {
        'g'
    } else {
        'h'
    }
}

/// The digit of rank `r`, `1` for rank 0.
pub open spec fn rank_char(r: int) -> char {
    if r == 0 {
        '1'
    } else if r == 1 {
        '2'
    } else if r == 2 {
        '3'
    } else if r == 3 {
        '4'
    } else if r == 4 {
        '5'
    } else if r == 5 {
        '6'
    } else if r == 6 {
        '7'
    } else {
        '8'
    }
}

/// The algebraic name of square `sq`: file letter, then rank digit.
pub open spec fn square_name(sq: int) -> Seq<char> {
    seq![file_char(sq % 8), rank_char(sq / 8)]
}

/// The square called `n`, if any.
pub open spec fn named_square(n: Seq<char>) -> Option<int> {
    if exists|sq: int| 0 <= sq < 64 && square_name(sq) == n {
        Some(choose|sq: int| 0 <= sq < 64 && square_name(sq) == n)
    } else {
        None
    }
}

/// No two squares share a name.
pub proof fn lemma_square_name_unique(a: int, b: int)
    requires
        0 <= a < 64,
        0 <= b < 64,
        square_name(a) == square_name(b),
    ensures
        a == b,
{
    assert(square_name(a)[0] == square_name(b)[0]);
    assert(square_name(a)[1] == square_name(b)[1]);
    assert(a % 8 == b % 8);
    assert(a / 8 == b / 8);
}

fn file_letter(f: usize) -> (c: char)
    requires
        f < 8,
    ensures
        c == file_char(f as int),
{
    match f {
        0 => 'a',
        1 => 'b',
        2 => 'c',
        3 => 'd',
        4 => 'e',
        5 => 'f',
        6 => 'g',
        _ => 'h',
    }
}

fn rank_digit(r: usize) -> (c: char)
    requires
        r < 8,
    ensures
        c == rank_char(r as int),
{
    match r {
        0 => '1',
        1 => '2',
        2 => '3',
        3 => '4',
        4 => '5',
        5 => '6',
        6 => '7',
        _ => '8',
    }
}

/// The characters of `s`, in order.
pub fn chars_of(s: &str) -> (r: Vec<char>)
    ensures
        r@ == s@,
{
    let n = s.unicode_len();
    let mut r: Vec<char> = Vec::new();
    let mut i: usize = 0;
    while i < n
        invariant
            n == s@.len(),
            i <= n,
            r@ == s@.take(i as int),
        decreases n - i,
    {
        r.push(s.get_char(i));
        i += 1;
        assert(r@ =~= s@.take(i as int));
    }
    assert(r@ =~= s@);
    r
}

/// Looks `name` up in the table of the 64 square names.
pub fn square_from_chars(name: &Vec<char>) -> (r: Option<Square>)
    ensures
        named_square(name@) == (match r {
            Some(sq) => Some(sq as int),
            None => None,
        }),
{
    let mut sq: usize = 0;
    while sq < 64
        invariant
            sq <= 64,
            forall|k: int| 0 <= k < sq ==> square_name(k) != name@,
        decreases 64 - sq,
    {
        if name.len() == 2 && name[0] == file_letter(sq % 8) && name[1] == rank_digit(sq / 8) {
            proof {
                assert(square_name(sq as int) =~= name@);
                let c = choose|k: int| 0 <= k < 64 && square_name(k) == name@;
                lemma_square_name_unique(c, sq as int);
            }
            return Some(sq);
        }
        proof {
            if square_name(sq as int) == name@ {
                assert(name@[0] == file_char(sq as int % 8));
            }
        }
        sq += 1;
    }
    None
}

/// The square named by `algebraic_square` (such as `e4`), by exact match.
pub fn algebraic_square_to_number(algebraic_square: &str) -> (r: Option<Square>)
    ensures
        named_square(algebraic_square@) == (match r {
            Some(sq) => Some(sq as int),
            None => None,
        }),
{
    let name = chars_of(algebraic_square);
    square_from_chars(&name)
}

} // verus!

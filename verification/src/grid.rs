//! The third field of a standard message as a 16-bit number: a flag for a
//! leading `R` and 15 bits that are a grid, nothing, `RRR`, `RR73`, `73` or a
//! report.

use vstd::prelude::*;
use crate::message::{Extra, Field, MAXGRID4};
use crate::text;
use crate::text::{dd_to_int, digit, int_to_dd};

verus! {

/// `RRR`
pub open spec fn rrr() -> Seq<u8> {
    seq!['R' as u8, 'R' as u8, 'R' as u8]
}

/// `RR73`
pub open spec fn rr73() -> Seq<u8> {
    seq!['R' as u8, 'R' as u8, '7' as u8, '3' as u8]
}

/// `73`
pub open spec fn seventy_three() -> Seq<u8> {
    seq!['7' as u8, '3' as u8]
}

/// Is the byte a letter from `A` to `R`?
pub open spec fn is_grid_letter(c: u8) -> bool {
    'A' as u8 <= c <= 'R' as u8
}

/// Does the field start with a grid: two letters from `A` to `R` and two digits?
pub open spec fn starts_with_grid(b: Seq<u8>) -> bool {
    &&& b.len() >= 4
    &&& is_grid_letter(b[0])
    &&& is_grid_letter(b[1])
    &&& text::is_digit(b[2])
    &&& text::is_digit(b[3])
}

/// The number of a grid.
pub open spec fn grid_value(b: Seq<u8>) -> int {
    (((b[0] - 'A' as int) * 18 + (b[1] - 'A' as int)) * 10 + (b[2] - '0' as int)) * 10 + (b[3]
        - '0' as int)
}

/// The number of a report of `db` decibels.
pub open spec fn report_value(db: int) -> int {
    MAXGRID4 + 35 + db
}

/// A number with the flag for a leading `R` set.
pub open spec fn flagged(v: int) -> int {
    if v < 0x8000 { v + 0x8000 } else { v }
}

/// The number that a third field is packed as.
pub open spec fn extra_number(b: Seq<u8>) -> int {
    if b.len() == 0 {
        MAXGRID4 + 1
    } else if b == rrr() {
        MAXGRID4 + 2
    } else if b == rr73() {
        MAXGRID4 + 3
    } else if b == seventy_three() {
        MAXGRID4 + 4
    } else if starts_with_grid(b) {
        grid_value(b)
    } else if b[0] == 'R' as u8 {
        flagged(report_value(text::dd_value(b.skip(1), 3)))
    } else {
        report_value(text::dd_value(b, 3))
    }
}

/// Can `unpack_grid` render the number? It can all of 15 bits. Past those the
/// first of the two digits of a report has to stay within a byte.
pub open spec fn extra_renders(igrid4: int) -> bool {
    igrid4 > MAXGRID4 + 4 ==> '0' as int + (text::magnitude(igrid4 - MAXGRID4 - 35) / 10) % 256
        <= 255
}

/// The four characters of a grid.
pub open spec fn grid_glyphs(n: int) -> Seq<u8> {
    seq![
        ('A' as int + (n / 1800) % 18) as u8,
        ('A' as int + (n / 100) % 18) as u8,
        ('0' as int + (n / 10) % 10) as u8,
        ('0' as int + n % 10) as u8,
    ]
}

/// How a third field renders: `ir` is the flag for a leading `R`.
pub open spec fn extra_text(igrid4: int, ir: int) -> (Seq<u8>, Field) {
    if igrid4 <= MAXGRID4 {
        let lead = if ir > 0 { seq!['R' as u8, ' ' as u8] } else { Seq::empty() };
        (lead + grid_glyphs(igrid4), Field::Grid)
    } else if igrid4 == MAXGRID4 + 1 {
        (Seq::empty(), Field::Empty)
    } else if igrid4 == MAXGRID4 + 2 {
        (rrr(), Field::Token)
    } else if igrid4 == MAXGRID4 + 3 {
        (rr73(), Field::Token)
    } else if igrid4 == MAXGRID4 + 4 {
        (seventy_three(), Field::Token)
    } else {
        let lead = if ir > 0 { seq!['R' as u8] } else { Seq::empty() };
        (lead + text::dd_text(igrid4 - MAXGRID4 - 35, 2, true), Field::Rst)
    }
}

/// Three characters hold a number from -99 to 999.
#[verifier::spinoff_prover]
pub proof fn lemma_three_characters(s: Seq<u8>)
    ensures
        0 <= text::leading_number(text::dd_field(s, 3), 0) <= 999,
        -99 <= text::dd_value(s, 3) <= 999,
{
    let f = text::dd_field(s, 3);
    reveal_with_fuel(text::leading_number, 5);
    assert(f.len() <= 3);
    assert(text::has_sign(s) ==> f.len() <= 2);
}

/// Pack the third field: a grid, a token or a report. What is none of these is
/// read as a report.
#[verifier::spinoff_prover]
pub fn pack_grid(grid4: &str) -> (r: u16)
    ensures
        r == extra_number(vstd::utf8::encode_utf8(grid4@)),
{
    let b: &[u8] = grid4.as_bytes();
    let n: usize = b.len();
    if n == 0 {
        return MAXGRID4 + 1;
    }
    if n == 3 && b[0] == 'R' as u8 && b[1] == 'R' as u8 && b[2] == 'R' as u8 {
        assert(b@ =~= rrr());
        return MAXGRID4 + 2;
    }
    if n == 4 && b[0] == 'R' as u8 && b[1] == 'R' as u8 && b[2] == '7' as u8 && b[3] == '3' as u8 {
        assert(b@ =~= rr73());
        return MAXGRID4 + 3;
    }
    if n == 2 && b[0] == '7' as u8 && b[1] == '3' as u8 {
        assert(b@ =~= seventy_three());
        return MAXGRID4 + 4;
    }
    if n >= 4 && grid_letter(b[0]) && grid_letter(b[1]) && digit(b[2]) && digit(b[3]) {
        let mut igrid4: u16 = (b[0] - 'A' as u8) as u16;
        igrid4 = igrid4 * 18 + (b[1] - 'A' as u8) as u16;
        igrid4 = igrid4 * 10 + (b[2] - '0' as u8) as u16;
        igrid4 = igrid4 * 10 + (b[3] - '0' as u8) as u16;
        return igrid4;
    }
    if b[0] == 'R' as u8 {
        proof {
            lemma_three_characters(b@.skip(1));
            assert(b@.subrange(1, n as int) =~= b@.skip(1));
        }
        let dd: i32 = dd_to_int(vstd::slice::slice_subrange(b, 1, n), 3);
        let v: u16 = (MAXGRID4 as i32 + 35 + dd) as u16;
        if v < 0x8000 {
            v + 0x8000
        } else {
            v
        }
    } else {
        proof {
            lemma_three_characters(b@);
        }
        let dd: i32 = dd_to_int(b, 3);
        (MAXGRID4 as i32 + 35 + dd) as u16
    }
}

/// Is the byte a letter from `A` to `R`?
fn grid_letter(c: u8) -> (r: bool)
    ensures
        r == is_grid_letter(c),
{
    'A' as u8 <= c && c <= 'R' as u8
}

/// Unpack the third field. Every number renders, so the result is never `None`.
#[verifier::spinoff_prover]
pub fn unpack_grid(igrid4: u16, ir: u8, field: &mut Field) -> (r: Option<Extra>)
    requires
        extra_renders(igrid4 as int),
    ensures
        r matches Some(e) && e@ == extra_text(igrid4 as int, ir as int).0,
        *final(field) == extra_text(igrid4 as int, ir as int).1,
{
    let mut out: Extra = Extra::new();
    if igrid4 <= MAXGRID4 {
        if ir > 0 {
            out.push('R' as u8);
            out.push(' ' as u8);
        }
        let n: u16 = igrid4;
        out.push('A' as u8 + (n / 10 / 10 / 18 % 18) as u8);
        out.push('A' as u8 + (n / 10 / 10 % 18) as u8);
        out.push('0' as u8 + (n / 10 % 10) as u8);
        out.push('0' as u8 + (n % 10) as u8);
        *field = Field::Grid;
        assert(out@ =~= extra_text(igrid4 as int, ir as int).0);
    } else {
        let irpt: u16 = igrid4 - MAXGRID4;
        if irpt == 1 {
            *field = Field::Empty;
        } else if irpt == 2 {
            out.push('R' as u8);
            out.push('R' as u8);
            out.push('R' as u8);
            *field = Field::Token;
            assert(out@ =~= rrr());
        } else if irpt == 3 {
            out.push('R' as u8);
            out.push('R' as u8);
            out.push('7' as u8);
            out.push('3' as u8);
            *field = Field::Token;
            assert(out@ =~= rr73());
        } else if irpt == 4 {
            out.push('7' as u8);
            out.push('3' as u8);
            *field = Field::Token;
            assert(out@ =~= seventy_three());
        } else {
            if ir > 0 {
                out.push('R' as u8);
            }
            proof {
                reveal_with_fuel(text::pow10, 3);
                reveal_with_fuel(text::dd_digits, 4);
                assert(text::pow10(1) == 10);
            }
            int_to_dd(&mut out, irpt as i32 - 35, 2, true);
            *field = Field::Rst;
            assert(out@ =~= extra_text(igrid4 as int, ir as int).0);
        }
    }
    Some(out)
}

} // verus!

//! Byte-exact assembly of the bookkeeping sections of a PDF document.
//!
//! The export path writes a PDF by hand: page streams first, then the object
//! catalog (`write_info`) and the cross-reference table (`write_xref`), which
//! record object identifiers and byte positions in decimal text.  The spec
//! functions below state the produced text character by character, so the
//! contracts pin the output down exactly.

use vstd::prelude::*;
use vstd::string::{StrSliceExecFns, StringExecFns};

verus! {

/// The character for the decimal digit `d`.
pub open spec fn digit_char(d: nat) -> char {
    if d == 0 {
        '0'
    } else if d == 1 {
        '1'
    } else if d == 2 {
        '2'
    } else if d == 3 {
        '3'
    } else if d == 4 {
        '4'
    } else if d == 5 {
        '5'
    } else if d == 6 {
        '6'
    } else if d == 7 {
        '7'
    } else if d == 8 {
        '8'
    } else {
        '9'
    }
}

/// The decimal digits of `n`, most significant first.
pub open spec fn dec_seq(n: nat) -> Seq<char>
    decreases n,
{
    if n < 10 {
        seq![digit_char(n)]
    } else {
        dec_seq(n / 10) + seq![digit_char(n % 10)]
    }
}

/// `k` zero characters.
pub open spec fn zeros(k: nat) -> Seq<char> {
    Seq::new(k, |i: int| '0')
}

/// The decimal digits of `n`, left-padded with zeros to ten characters
/// (the `{:010}` format used for cross-reference byte positions).
pub open spec fn padded10(n: nat) -> Seq<char> {
    if dec_seq(n).len() >= 10 {
        dec_seq(n)
    } else {
        zeros((10 - dec_seq(n).len()) as nat) + dec_seq(n)
    }
}

/// A single decimal digit as a string slice.
fn digit_str(d: usize) -> (r: &'static str)
    requires
        d < 10,
    ensures
        r@ == seq![digit_char(d as nat)],
{
    match d {
        0 => {
            proof {
                reveal_strlit("0");
                assert("0"@ =~= seq![digit_char(0)]);
            }
            "0"
        },
        1 => {
            proof {
                reveal_strlit("1");
                assert("1"@ =~= seq![digit_char(1)]);
            }
            "1"
        },
        2 => {
            proof {
                reveal_strlit("2");
                assert("2"@ =~= seq![digit_char(2)]);
            }
            "2"
        },
        3 => {
            proof {
                reveal_strlit("3");
                assert("3"@ =~= seq![digit_char(3)]);
            }
            "3"
        },
        4 => {
            proof {
                reveal_strlit("4");
                assert("4"@ =~= seq![digit_char(4)]);
            }
            "4"
        },
        5 => {
            proof {
                reveal_strlit("5");
                assert("5"@ =~= seq![digit_char(5)]);
            }
            "5"
        },
        6 => {
            proof {
                reveal_strlit("6");
                assert("6"@ =~= seq![digit_char(6)]);
            }
            "6"
        },
        7 => {
            proof {
                reveal_strlit("7");
                assert("7"@ =~= seq![digit_char(7)]);
            }
            "7"
        },
        8 => {
            proof {
                reveal_strlit("8");
                assert("8"@ =~= seq![digit_char(8)]);
            }
            "8"
        },
        _ => {
            proof {
                reveal_strlit("9");
                assert("9"@ =~= seq![digit_char(9)]);
            }
            "9"
        },
    }
}

/// Format `n` in decimal.
pub fn fmt_dec(n: usize) -> (r: String)
    ensures
        r@ == dec_seq(n as nat),
    decreases n,
{
    if n < 10 {
        String::from_str(digit_str(n))
    } else {
        let mut r = fmt_dec(n / 10);
        r.append(digit_str(n % 10));
        r
    }
}

/// Format `n` in decimal, left-padded with zeros to ten characters.
pub fn fmt_padded10(n: usize) -> (r: String)
    ensures
        r@ == padded10(n as nat),
{
    let digits = fmt_dec(n);
    let digits_str = digits.as_str();
    let dlen = digits_str.unicode_len();
    let mut r = String::new();
    let mut count = dlen;
    while count < 10
        invariant
            dec_seq(n as nat).len() == dlen,
            dlen <= count <= 10 || count == dlen,
            r@ =~= zeros((count - dlen) as nat),
        decreases 10 - count,
    {
        r.append("0");
        proof {
            reveal_strlit("0");
            assert(r@ =~= zeros((count + 1 - dlen) as nat));
        }
        count = count + 1;
    }
    r.append(digits_str);
    proof {
        assert(r@ =~= padded10(n as nat));
    }
    r
}

/// One catalog reference, `<id> 0 R `, for each page object identifier.
pub open spec fn kids_seq(ids: Seq<usize>) -> Seq<char>
    decreases ids.len(),
{
    if ids.len() == 0 {
        Seq::empty()
    } else {
        kids_seq(ids.drop_last()) + dec_seq(ids.last() as nat) + " 0 R "@
    }
}

/// The document information section: the page tree object listing every page,
/// followed by the catalog object.
pub open spec fn info_seq(ids: Seq<usize>) -> Seq<char> {
    "2 0 obj\n<< /Type /Pages\n   /Count "@ + dec_seq(ids.len()) + " \n   /Kids [ "@ + kids_seq(
        ids,
    ) + " ]\n>>\nendobj\n1 0 obj\n<< /Type /Catalog\n   /Pages 2 0 R\n>>\nendobj\n"@
}

/// One cross-reference line, ten-digit byte position then ` 00000 n `,
/// for each object position.
pub open spec fn xref_entries(positions: Seq<usize>) -> Seq<char>
    decreases positions.len(),
{
    if positions.len() == 0 {
        Seq::empty()
    } else {
        xref_entries(positions.drop_last()) + padded10(positions.last() as nat) + " 00000 n "@
    }
}

/// The cross-reference table and trailer: the free-list head line, one line
/// per object position, then the trailer naming the catalog and the byte
/// position where the objects end.
pub open spec fn xref_seq(positions: Seq<usize>, end_position: nat) -> Seq<char> {
    "xref\n0 "@ + dec_seq(positions.len()) + "\n0000000000 65535 f \n"@ + xref_entries(positions)
        + "trailer\n<< /Size "@ + dec_seq(positions.len()) + "\n   /Root 1 0 R\n>>\nstartxref\n"@
        + dec_seq(end_position) + "\n"@
}

/// Append the page tree and catalog objects for the given page identifiers.
pub fn write_info(pdf: &mut String, page_id_list: Vec<usize>)
    ensures
        final(pdf)@ == old(pdf)@ + info_seq(page_id_list@),
{
    let ghost start = pdf@;
    pdf.append("2 0 obj\n<< /Type /Pages\n   /Count ");
    pdf.append(fmt_dec(page_id_list.len()).as_str());
    pdf.append(" \n   /Kids [ ");
    let ghost head = pdf@;
    let mut i: usize = 0;
    while i < page_id_list.len()
        invariant
            i <= page_id_list@.len(),
            pdf@ =~= head + kids_seq(page_id_list@.take(i as int)),
        decreases page_id_list@.len() - i,
    {
        pdf.append(fmt_dec(page_id_list[i]).as_str());
        pdf.append(" 0 R ");
        proof {
            let taken = page_id_list@.take(i + 1);
            assert(taken.drop_last() =~= page_id_list@.take(i as int));
            assert(taken.last() == page_id_list@[i as int]);
            assert(pdf@ =~= head + kids_seq(taken));
        }
        i = i + 1;
    }
    proof {
        assert(page_id_list@.take(page_id_list@.len() as int) =~= page_id_list@);
    }
    pdf.append(" ]\n>>\nendobj\n1 0 obj\n<< /Type /Catalog\n   /Pages 2 0 R\n>>\nendobj\n");
    proof {
        assert(pdf@ =~= start + info_seq(page_id_list@));
    }
}

/// Append the cross-reference table and trailer for the given object
/// positions and the byte position where the objects end.
pub fn write_xref(pdf: &mut String, object_positions: Vec<usize>, object_end_position: usize)
    ensures
        final(pdf)@ == old(pdf)@ + xref_seq(object_positions@, object_end_position as nat),
{
    let ghost start = pdf@;
    pdf.append("xref\n0 ");
    pdf.append(fmt_dec(object_positions.len()).as_str());
    pdf.append("\n0000000000 65535 f \n");
    let ghost head = pdf@;
    let mut i: usize = 0;
    while i < object_positions.len()
        invariant
            i <= object_positions@.len(),
            pdf@ =~= head + xref_entries(object_positions@.take(i as int)),
        decreases object_positions@.len() - i,
    {
        pdf.append(fmt_padded10(object_positions[i]).as_str());
        pdf.append(" 00000 n ");
        proof {
            let taken = object_positions@.take(i + 1);
            assert(taken.drop_last() =~= object_positions@.take(i as int));
            assert(taken.last() == object_positions@[i as int]);
            assert(pdf@ =~= head + xref_entries(taken));
        }
        i = i + 1;
    }
    proof {
        assert(object_positions@.take(object_positions@.len() as int) =~= object_positions@);
    }
    pdf.append("trailer\n<< /Size ");
    pdf.append(fmt_dec(object_positions.len()).as_str());
    pdf.append("\n   /Root 1 0 R\n>>\nstartxref\n");
    pdf.append(fmt_dec(object_end_position).as_str());
    pdf.append("\n");
    proof {
        assert(pdf@ =~= start + xref_seq(object_positions@, object_end_position as nat));
    }
}

} // verus!

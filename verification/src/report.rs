//! The output line of a frame: six columns, separated by ` | `.

use vstd::prelude::*;
use vstd::string::*;

verus! {

/// What stands between two columns of an output line.
pub open spec fn separator() -> Seq<char> {
    seq![' ', '|', ' ']
}

/// The output line of a frame: timestamp, device, identifier, selected
/// bytes, unsigned value and signed value, in this order.
pub open spec fn report_text(
    timestamp: Seq<char>,
    device: Seq<char>,
    id: Seq<char>,
    selected_hex: Seq<char>,
    unsigned: Seq<char>,
    signed: Seq<char>,
) -> Seq<char> {
    timestamp + separator() + device + separator() + id + separator() + selected_hex + separator()
        + unsigned + separator() + signed
}

/// Appends a separator and a column.
fn push_column(line: &mut String, column: &str)
    ensures
        final(line)@ == old(line)@ + separator() + column@,
{
    line.append(" | ");
    proof {
        reveal_strlit(" | ");
        assert(" | "@ =~= separator());
    }
    line.append(column);
}

/// Joins the six columns of an output line. The columns are given as they
/// are to appear: the caller has formatted the numbers.
pub fn report_line(
    timestamp: &str,
    device: &str,
    id: &str,
    selected_hex: &str,
    unsigned: &str,
    signed: &str,
) -> (line: String)
    ensures
        line@ == report_text(timestamp@, device@, id@, selected_hex@, unsigned@, signed@),
{
    let mut line = String::new();
    line.append(timestamp);
    assert(line@ =~= timestamp@);
    push_column(&mut line, device);
    push_column(&mut line, id);
    push_column(&mut line, selected_hex);
    push_column(&mut line, unsigned);
    push_column(&mut line, signed);
    line
}

} // verus!

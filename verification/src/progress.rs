//! The text of the progress line shown while renaming.

use vstd::prelude::*;
use crate::text::{decimal, padded_decimal, zero_pad};

verus! {

/// The number of cells of the progress bar.
pub const BAR_WIDTH: usize = 30;

/// A filled cell of the bar.
pub open spec fn filled_cell() -> Seq<char> {
    "\x1b[92m█\x1b[0m"@
}

/// An empty cell of the bar.
pub open spec fn empty_cell() -> Seq<char> {
    "\x1b[90m░\x1b[0m"@
}

/// The bar's cells: `BAR_WIDTH` of them, the first `filled` filled (green),
/// the rest empty (grey).
pub open spec fn bar_cells(filled: nat) -> Seq<Seq<char>> {
    Seq::new(BAR_WIDTH as nat, |i: int| if i < filled { filled_cell() } else { empty_cell() })
}

/// The progress line: a carriage return, `[`, the bar's cells, `] `, the
/// percentage and the count, then the status text (in green).
pub open spec fn progress_text(
    filled: nat,
    percent: nat,
    current: nat,
    total: nat,
    status: Seq<char>,
) -> Seq<char> {
    "\r["@ + bar_cells(filled).flatten() + "] \x1b[92m"@ + decimal(percent) + "% ("@ + decimal(
        current,
    ) + "/"@ + decimal(total) + ")\x1b[0m \x1b[92m"@ + status + "\x1b[0m"@
}

/// The bar always has exactly `BAR_WIDTH` cells: `filled` filled ones first
/// (all of them when `filled` is at least the width), then empty ones.
pub proof fn lemma_bar_layout(filled: nat)
    ensures
        bar_cells(filled).len() == BAR_WIDTH,
        forall|i: int| 0 <= i < BAR_WIDTH && i < filled ==> #[trigger] bar_cells(filled)[i] == filled_cell(),
        forall|i: int| 0 <= i < BAR_WIDTH && filled <= i ==> #[trigger] bar_cells(filled)[i] == empty_cell(),
{
}

fn append_bar(out: &mut String, filled: usize)
    ensures
        final(out)@ == old(out)@ + bar_cells(filled as nat).flatten(),
{
    let ghost start = out@;
    let ghost cells = bar_cells(filled as nat);
    let mut i: usize = 0;
    assert(cells.take(0) =~= Seq::<Seq<char>>::empty());
    while i < BAR_WIDTH
        invariant
            i <= BAR_WIDTH,
            cells == bar_cells(filled as nat),
            out@ == start + cells.take(i as int).flatten(),
        decreases BAR_WIDTH - i,
    {
        if i < filled {
            out.append("\x1b[92m█\x1b[0m");
        } else {
            out.append("\x1b[90m░\x1b[0m");
        }
        proof {
            assert(cells.take(i + 1) =~= cells.take(i as int).push(cells[i as int]));
            cells.take(i as int).lemma_flatten_push(cells[i as int]);
        }
        i = i + 1;
    }
    assert(cells.take(BAR_WIDTH as int) =~= cells);
}

fn append_number(out: &mut String, n: usize)
    ensures
        final(out)@ == old(out)@ + decimal(n as nat),
{
    let d = zero_pad(n, 0);
    assert(padded_decimal(n as nat, 0) == decimal(n as nat));
    out.append(d.as_str());
}

/// The progress line for `current` of `total` files, with the bar `filled`
/// cells long.
pub fn progress_line(filled: usize, percent: usize, current: usize, total: usize, status: &str) -> (r:
    String)
    requires
        filled <= BAR_WIDTH,
    ensures
        r@ == progress_text(filled as nat, percent as nat, current as nat, total as nat, status@),
{
    let mut out = String::from_str("\r[");
    append_bar(&mut out, filled);
    out.append("] \x1b[92m");
    append_number(&mut out, percent);
    out.append("% (");
    append_number(&mut out, current);
    out.append("/");
    append_number(&mut out, total);
    out.append(")\x1b[0m \x1b[92m");
    out.append(status);
    out.append("\x1b[0m");
    out
}

} // verus!

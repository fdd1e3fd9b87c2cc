//! The export of a deal stream: a fixed header line, then one line per deal
//! in the order the deals arrive.
use vstd::prelude::*;
use vstd::string::*;

use crate::deal::{deal_in_range, deal_row, row_text, Deal, DealRow, Stream};
use crate::error::ExportError;

verus! {

/// The header line that opens every export.
pub open spec fn header_text() -> Seq<char> {
    "FrameTimeDelta;ExchTime;DealId;Type;Price;Volume;OI"@
}

/// The line of one deal, its fields joined by `;`.
pub open spec fn deal_text(d: Deal) -> Seq<char> {
    row_text(deal_row(d), ";"@)
}

/// All lines of the export of `deals`: the header, then one line per deal.
pub open spec fn export_lines(deals: Seq<Deal>) -> Seq<Seq<char>> {
    seq![header_text()] + deals.map_values(|d: Deal| deal_text(d))
}

/// Whether every deal of `deals` has a representable timestamp.
pub open spec fn all_in_range(deals: Seq<Deal>) -> bool {
    forall|i: int| 0 <= i < deals.len() ==> deal_in_range(#[trigger] deals[i])
}

/// The header line, `FrameTimeDelta;ExchTime;DealId;Type;Price;Volume;OI`.
pub fn csv_header() -> (r: String)
    ensures
        r@ == header_text(),
{
    String::from_str("FrameTimeDelta;ExchTime;DealId;Type;Price;Volume;OI")
}

/// Accepts a stream of deals and refuses every other kind.
pub fn check_stream(stream: Stream) -> (r: Result<(), ExportError>)
    ensures
        r is Ok <==> stream == Stream::Deals,
        r is Err ==> r == Err::<(), ExportError>(ExportError::UnsupportedStream),
{
    match stream {
        Stream::Deals => Ok(()),
        _ => Err(ExportError::UnsupportedStream),
    }
}

/// The line of one deal.
pub fn deal_line(deal: &Deal) -> (r: Result<String, ExportError>)
    ensures
        match r {
            Ok(s) => deal_in_range(*deal) && s@ == deal_text(*deal),
            Err(e) => !deal_in_range(*deal) && e == ExportError::TimestampOutOfRange,
        },
{
    match DealRow::new(deal) {
        Ok(row) => Ok(row.as_csv(";")),
        Err(e) => Err(e),
    }
}

/// The whole export of a stream: its header line, then one line per deal in
/// order. A stream of another kind is refused before any deal is read; a deal
/// whose timestamp has no date aborts the export.
pub fn export_deals(stream: Stream, deals: &Vec<Deal>) -> (r: Result<Vec<String>, ExportError>)
    ensures
        match r {
            Ok(lines) => stream == Stream::Deals && all_in_range(deals@) && lines@.map_values(
                |s: String| s@,
            ) == export_lines(deals@),
            Err(e) => (stream != Stream::Deals && e == ExportError::UnsupportedStream) || (
            stream == Stream::Deals && !all_in_range(deals@) && e
                == ExportError::TimestampOutOfRange),
        },
{
    if let Err(e) = check_stream(stream) {
        return Err(e);
    }
    let mut lines: Vec<String> = Vec::new();
    lines.push(csv_header());
    let mut i: usize = 0;
    while i < deals.len()
        invariant
            0 <= i <= deals.len(),
            stream == Stream::Deals,
            all_in_range(deals@.take(i as int)),
            lines@.map_values(|s: String| s@) == export_lines(deals@.take(i as int)),
        decreases deals.len() - i,
    {
        let line = match deal_line(&deals[i]) {
            Ok(line) => line,
            Err(e) => {
                assert(!deal_in_range(deals@[i as int]));
                assert(!all_in_range(deals@));
                return Err(e);
            },
        };
        let ghost before = lines@;
        lines.push(line);
        proof {
            assert(lines@.map_values(|s: String| s@) =~= before.map_values(|s: String| s@).push(
                line@,
            ));
            assert(all_in_range(deals@.take(i + 1)));
            let next = deals@.take(i + 1);
            assert(next =~= deals@.take(i as int).push(deals@[i as int]));
            assert(next.map_values(|d: Deal| deal_text(d)) =~= deals@.take(i as int).map_values(
                |d: Deal| deal_text(d),
            ).push(deal_text(deals@[i as int])));
            assert(lines@.map_values(|s: String| s@) =~= export_lines(next));
        }
        i = i + 1;
    }
    assert(deals@.take(deals.len() as int) =~= deals@);
    Ok(lines)
}

/// The export keeps the deals' order: it has one line per deal, the line of
/// the `i`-th deal comes `i + 1`-th, and the export of `a` followed by `b` is
/// the export of `a` followed by the lines of `b`'s deals.
pub proof fn lemma_export_order(a: Seq<Deal>, b: Seq<Deal>)
    ensures
        export_lines(a).len() == a.len() + 1,
        forall|i: int| 0 <= i < a.len() ==> #[trigger] export_lines(a)[i + 1] == deal_text(a[i]),
        export_lines(a + b) == export_lines(a) + b.map_values(|d: Deal| deal_text(d)),
{
    assert((a + b).map_values(|d: Deal| deal_text(d)) =~= a.map_values(|d: Deal| deal_text(d))
        + b.map_values(|d: Deal| deal_text(d)));
    assert(export_lines(a + b) =~= export_lines(a) + b.map_values(|d: Deal| deal_text(d)));
    assert forall|i: int| 0 <= i < a.len() implies #[trigger] export_lines(a)[i + 1] == deal_text(
        a[i],
    ) by {
        assert(export_lines(a)[i + 1] == a.map_values(|d: Deal| deal_text(d))[i]);
    }
}

/// The header line comes first, however many deals follow, none included.
pub proof fn lemma_header_first(deals: Seq<Deal>)
    ensures
        export_lines(deals).len() >= 1,
        export_lines(deals)[0] == header_text(),
{
}

} // verus!

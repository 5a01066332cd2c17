//! The text of a content-mode record: `path:line:column: text`.

use vstd::prelude::*;
use crate::search::{FileSearchResult, MatchView};

verus! {

/// The decimal digits of `n`, most significant first, without leading zeros.
pub open spec fn decimal(n: nat) -> Seq<u8>
    decreases n,
{
    if n < 10 {
        seq![(48 + n) as u8]
    } else {
        decimal(n / 10) + seq![(48 + n % 10) as u8]
    }
}

/// The rendered line of a record.
pub open spec fn render_match(m: MatchView) -> Seq<u8> {
    m.path + seq![58u8] + decimal(m.line as nat) + seq![58u8] + decimal(m.column as nat) + seq![
        58u8,
        32u8,
    ] + m.text
}

/// Appends the decimal digits of `n` to `out`.
pub fn push_decimal(n: usize, out: &mut Vec<u8>)
    ensures
        final(out)@ == old(out)@ + decimal(n as nat),
    decreases n,
{
    if n >= 10 {
        push_decimal(n / 10, out);
    }
    out.push((48 + n % 10) as u8);
    assert(final(out)@ =~= old(out)@ + decimal(n as nat));
}

fn push_bytes(src: &Vec<u8>, out: &mut Vec<u8>)
    ensures
        final(out)@ == old(out)@ + src@,
{
    let mut i: usize = 0;
    while i < src.len()
        invariant
            i <= src.len(),
            out@ == old(out)@ + src@.subrange(0, i as int),
        decreases src.len() - i,
    {
        out.push(src[i]);
        i = i + 1;
        assert(out@ =~= old(out)@ + src@.subrange(0, i as int));
    }
    assert(src@.subrange(0, src.len() as int) =~= src@);
}

impl FileSearchResult {
    /// The record as one line of output, without a terminator.
    pub fn render(&self) -> (r: Vec<u8>)
        ensures
            r@ == render_match(self@),
    {
        let mut out: Vec<u8> = Vec::new();
        push_bytes(&self.file_path, &mut out);
        out.push(58u8);
        push_decimal(self.position.0, &mut out);
        out.push(58u8);
        push_decimal(self.position.1, &mut out);
        out.push(58u8);
        out.push(32u8);
        push_bytes(&self.context, &mut out);
        assert(out@ =~= render_match(self@));
        out
    }
}

} // verus!

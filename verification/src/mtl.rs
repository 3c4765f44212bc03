//! Scanning a material file for its texture map.
//!
//! Only `map_Kd <filename>` records are interpreted; every other line is
//! ignored.  When several `map_Kd` records appear, the last one wins.  A
//! `map_Kd` record without a filename token aborts the scan with the
//! 1-based number of the offending line.

use crate::tokenize::{bytes_eq, lines_of, spec_lines, spec_tokens, tokens_of};
use vstd::prelude::*;

verus! {

/// The bytes of the keyword `map_Kd`.
pub open spec fn kw_map_kd() -> Seq<u8> {
    seq![109u8, 97u8, 112u8, 95u8, 75u8, 100u8]
}

/// Scanning the lines of a material file, the first line carrying the
/// 1-based number `ln`: the filename of the last well-formed `map_Kd`
/// record, or the line number of the first `map_Kd` record that lacks
/// its filename token.
pub open spec fn spec_mtl(lines: Seq<Seq<u8>>, ln: int) -> Result<Option<Seq<u8>>, int>
    decreases lines.len(),
{
    if lines.len() == 0 {
        Ok(None)
    } else {
        let toks: Seq<Seq<u8>> = spec_tokens(lines[0]);
        if toks.len() >= 1 && toks[0] == kw_map_kd() {
            if toks.len() < 2 {
                Err(ln)
            } else {
                match spec_mtl(lines.skip(1), ln + 1) {
                    Err(e) => Err(e),
                    Ok(None) => Ok(Some(toks[1])),
                    Ok(Some(f)) => Ok(Some(f)),
                }
            }
        } else {
            spec_mtl(lines.skip(1), ln + 1)
        }
    }
}

/// How a later scan outcome combines with the best filename found so far.
pub open spec fn mtl_combine(
    cur: Option<Seq<u8>>,
    rest: Result<Option<Seq<u8>>, int>,
) -> Result<Option<Seq<u8>>, int> {
    match rest {
        Err(e) => Err(e),
        Ok(None) => Ok(cur),
        Ok(Some(f)) => Ok(Some(f)),
    }
}

/// Scan the text of a material file for the texture filename named by its
/// last `map_Kd` record, if any; a `map_Kd` record without a filename
/// token is refused with its 1-based line number.
pub fn parse_mtl(content: &[u8]) -> (r: Result<Option<Vec<u8>>, usize>)
    ensures
        spec_mtl(spec_lines(content@), 1) == match r {
            Ok(None) => Ok::<Option<Seq<u8>>, int>(None),
            Ok(Some(f)) => Ok::<Option<Seq<u8>>, int>(Some(f@)),
            Err(ln) => Err::<Option<Seq<u8>>, int>(ln as int),
        },
{
    let ghost big: Seq<Seq<u8>> = spec_lines(content@);
    let lines: Vec<Vec<u8>> = lines_of(content);
    let mut cur: Option<Vec<u8>> = None;
    let mut i: usize = 0;
    let kw: Vec<u8> = vec![109u8, 97u8, 112u8, 95u8, 75u8, 100u8];
    proof {
        assert(kw@ =~= kw_map_kd());
        assert(big.skip(0) =~= big);
    }
    while i < lines.len()
        invariant
            0 <= i <= lines@.len(),
            big == spec_lines(content@),
            lines@.len() == big.len(),
            forall|j: int| 0 <= j < lines@.len() ==> #[trigger] lines@[j]@ == big[j],
            kw@ == kw_map_kd(),
            spec_mtl(big, 1) == mtl_combine(
                match cur {
                    Some(f) => Some(f@),
                    None => None,
                },
                spec_mtl(big.skip(i as int), i + 1),
            ),
        decreases lines@.len() - i,
    {
        let ghost rem: Seq<Seq<u8>> = big.skip(i as int);
        proof {
            assert(rem[0] == big[i as int]);
            assert(rem.skip(1) =~= big.skip(i as int + 1));
        }
        let toks: Vec<Vec<u8>> = tokens_of(lines[i].as_slice());
        let ghost tseq: Seq<Seq<u8>> = spec_tokens(big[i as int]);
        proof {
            assert(lines@[i as int]@ == big[i as int]);
            assert(tseq.len() == toks@.len());
            if toks@.len() >= 1 {
                assert(toks@[0]@ == tseq[0]);
            }
            if toks@.len() >= 2 {
                assert(toks@[1]@ == tseq[1]);
            }
        }
        if toks.len() >= 1 && bytes_eq(toks[0].as_slice(), kw.as_slice()) {
            if toks.len() < 2 {
                return Err(i + 1);
            }
            cur = Some(toks[1].clone());
            proof {
                assert(toks@[1]@ == tseq[1]);
            }
        }
        i += 1;
    }
    proof {
        assert(big.skip(i as int).len() == 0);
    }
    match cur {
        Some(f) => Ok(Some(f)),
        None => Ok(None),
    }
}

} // verus!

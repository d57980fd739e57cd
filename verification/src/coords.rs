use vstd::prelude::*;

verus! {

use vstd::arithmetic::div_mod::{lemma_fundamental_div_mod, lemma_fundamental_div_mod_converse};

use crate::chunk::CHUNKSIZE;

/// Identifies one horizontal cell of the unbounded XZ chunk grid. There
/// is no vertical component: chunk height is fixed and uniform.
#[derive(Hash, Eq, PartialEq, Structural, Debug, Clone, Copy)]
pub struct ChunkPos {
    pub x: i32,
    pub z: i32,
}

/// Splits one integer world-block coordinate into a chunk coordinate and
/// a local offset, using Euclidean division so that negative coordinates
/// round toward minus infinity and the local offset is always in
/// `[0, CHUNKSIZE)`. The pair reconstructs the input exactly.
pub fn chunk_split(w: i32) -> (r: (i32, i32))
    ensures
        r.0 == w as int / (CHUNKSIZE as int),
        r.1 == w as int % (CHUNKSIZE as int),
        r.0 * (CHUNKSIZE as int) + r.1 == w as int,
        0 <= r.1 < CHUNKSIZE,
{
    if w >= 0 {
        let u: u64 = w as u64;
        let q: u64 = u / 16;
        let rem: u64 = u % 16;
        proof {
            lemma_fundamental_div_mod(u as int, 16);
            lemma_fundamental_div_mod_converse(w as int, 16, q as int, rem as int);
        }
        (q as i32, rem as i32)
    } else {
        let m: u64 = (-(w as i64)) as u64;
        let qm: u64 = (m + 15) / 16;
        proof {
            lemma_fundamental_div_mod(m as int + 15, 16);
        }
        let rem: u64 = qm * 16 - m;
        let q: i64 = -(qm as i64);
        proof {
            lemma_fundamental_div_mod_converse(w as int, 16, q as int, rem as int);
        }
        (q as i32, rem as i32)
    }
}

} // verus!

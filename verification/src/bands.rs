//! Bands: a grid cut into equal, contiguous groups of rows.
//!
//! With `band` rows to a group, row `r` of the whole is row `r % band` of
//! group `r / band`.

use vstd::prelude::*;
use vstd::arithmetic::div_mod::lemma_fundamental_div_mod_converse;

verus! {

/// The group of rows number `i` of `g`, where each group has `band` rows.
pub open spec fn band_of(g: Seq<Seq<bool>>, band: int, i: int) -> Seq<Seq<bool>> {
    g.subrange(band * i, band * (i + 1))
}

/// The grid that the groups `bands`, of `band` rows each, make up.
pub open spec fn join_bands(bands: Seq<Seq<Seq<bool>>>, band: int) -> Seq<Seq<bool>> {
    Seq::new((band * bands.len()) as nat, |r: int| bands[r / band][r % band])
}

/// The groups of `band` rows into which `g` falls, `parts` of them.
pub open spec fn split_bands(g: Seq<Seq<bool>>, band: int, parts: int) -> Seq<Seq<Seq<bool>>> {
    Seq::new(parts as nat, |i: int| band_of(g, band, i))
}

/// Row `y` of group `i` is row `band * i + y` of the whole.
pub proof fn lemma_band_index(band: int, parts: int, i: int, y: int)
    requires
        0 <= i < parts,
        0 <= y < band,
    ensures
        0 <= band * i + y < band * parts,
        band * (i + 1) <= band * parts,
        band * (i + 1) == band * i + band,
        (band * i + y) / band == i,
        (band * i + y) % band == y,
{
    assert(band * (i + 1) == band * i + band) by (nonlinear_arith);
    assert(band * (i + 1) <= band * parts) by (nonlinear_arith)
        requires
            i + 1 <= parts,
            0 <= band,
    ;
    assert(0 <= band * i) by (nonlinear_arith)
        requires
            0 <= i,
            0 <= band,
    ;
    assert(band * i == i * band) by (nonlinear_arith);
    lemma_fundamental_div_mod_converse(band * i + y, band, i, y);
}

/// Row `r` of the whole is row `r % band` of group `r / band`.
pub proof fn lemma_band_split(r: int, band: int, parts: int)
    requires
        0 <= parts,
        0 <= band,
        0 <= r < band * parts,
    ensures
        0 < band,
        0 <= r / band < parts,
        0 <= r % band < band,
        r == band * (r / band) + r % band,
{
    assert(0 < band) by (nonlinear_arith)
        requires
            0 <= band,
            0 <= r < band * parts,
    ;
    assert(0 <= r / band < parts && 0 <= r % band < band && r == band * (r / band) + r % band)
        by (nonlinear_arith)
        requires
            0 < band,
            0 <= r < band * parts,
    ;
}

/// Cutting a grid into groups and joining the groups gives the grid back.
pub proof fn lemma_join_split(g: Seq<Seq<bool>>, band: int, parts: int)
    requires
        0 <= band,
        0 <= parts,
        g.len() == band * parts,
    ensures
        join_bands(split_bands(g, band, parts), band) == g,
{
    let j = join_bands(split_bands(g, band, parts), band);
    assert forall|r: int| 0 <= r < band * parts implies j[r] == g[r] by {
        lemma_band_split(r, band, parts);
        lemma_band_index(band, parts, r / band, r % band);
    }
    assert(j =~= g);
}

} // verus!

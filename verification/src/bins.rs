use vstd::prelude::*;
use crate::config::RxBinBlock;

verus! {

/// The step of a block, a step of zero counting as one.
pub open spec fn step_of(b: RxBinBlock) -> nat {
    if b.step == 0 {
        1
    } else {
        b.step as nat
    }
}

/// The symbol a receiver bin stands for: the nearest symbol slot of the low
/// block (0..=127) or of the high block (128..=255); 0 outside both.
pub open spec fn bin_symbol(bin: nat, low: RxBinBlock, high: RxBinBlock) -> u8 {
    if low.start <= bin <= low.end {
        let s = step_of(low);
        let offset: int = (bin - low.start + s / 2) / (s as int);
        if offset < 127 { offset as u8 } else { 127 }
    } else if high.start <= bin <= high.end {
        let s = step_of(high);
        let offset: int = (bin - high.start + s / 2) / (s as int);
        (128 + if offset < 127 { offset } else { 127 }) as u8
    } else {
        0
    }
}

/// The bin on which a symbol is expected.
pub open spec fn expected_bin(symbol: u8, low: RxBinBlock, high: RxBinBlock) -> nat {
    if symbol <= 127 {
        (low.start + symbol * step_of(low)) as nat
    } else {
        (high.start + (symbol - 128) * step_of(high)) as nat
    }
}

/// The distance between two bins.
pub open spec fn bin_distance(a: nat, b: nat) -> nat {
    if a >= b { (a - b) as nat } else { (b - a) as nat }
}

/// The bins of a block: `start`, `start + step`, ... while at most `end`;
/// counting stops before `usize::MAX` is reached by stepping.
pub open spec fn block_bins(b: RxBinBlock) -> Seq<usize> {
    let s = step_of(b);
    let lim: int = if b.end < usize::MAX { b.end as int } else { usize::MAX - 1 };
    let count: nat = if b.start > b.end {
        0
    } else if b.start > lim {
        1
    } else {
        ((lim - b.start) / (s as int) + 1) as nat
    };
    Seq::new(count, |k: int| (b.start + k * s) as usize)
}

/// Maps a receiver bin to its symbol.
pub fn map_bin_to_symbol(bin: usize, low_block: &RxBinBlock, high_block: &RxBinBlock) -> (r: u8)
    ensures
        r == bin_symbol(bin as nat, *low_block, *high_block),
{
    if bin >= low_block.start && bin <= low_block.end {
        let step: u128 = if low_block.step == 0 { 1 } else { low_block.step as u128 };
        let offset = ((bin - low_block.start) as u128 + step / 2) / step;
        return if offset < 127 { offset as u8 } else { 127 };
    }
    if bin >= high_block.start && bin <= high_block.end {
        let step: u128 = if high_block.step == 0 { 1 } else { high_block.step as u128 };
        let offset = ((bin - high_block.start) as u128 + step / 2) / step;
        let capped: u8 = if offset < 127 { offset as u8 } else { 127 };
        return 128 + capped;
    }
    0
}

/// The distance between a peak bin and the bin a symbol is expected on
/// (the expected bin may lie beyond `usize::MAX`).
pub fn expected_bin_distance(
    symbol: u8,
    peak_bin: usize,
    low_block: &RxBinBlock,
    high_block: &RxBinBlock,
) -> (r: u128)
    ensures
        r == bin_distance(peak_bin as nat, expected_bin(symbol, *low_block, *high_block)),
{
    let expected: u128 = if symbol <= 127 {
        let step: u128 = if low_block.step == 0 { 1 } else { low_block.step as u128 };
        assert(symbol * step <= 127 * 0x1_0000_0000_0000_0000) by (nonlinear_arith)
            requires
                symbol <= 127,
                step <= 0x1_0000_0000_0000_0000,
        ;
        low_block.start as u128 + (symbol as u128) * step
    } else {
        let step: u128 = if high_block.step == 0 { 1 } else { high_block.step as u128 };
        assert((symbol - 128) * step <= 127 * 0x1_0000_0000_0000_0000) by (nonlinear_arith)
            requires
                symbol - 128 <= 127,
                step <= 0x1_0000_0000_0000_0000,
        ;
        high_block.start as u128 + ((symbol - 128) as u128) * step
    };
    let peak = peak_bin as u128;
    if peak >= expected {
        peak - expected
    } else {
        expected - peak
    }
}

pub(crate) proof fn lemma_div_bound(x: int, s: int, j: int)
    requires
        x >= 0,
        s > 0,
        j >= 0,
    ensures
        j <= x / s <==> j * s <= x,
{
    assert(j <= x / s ==> j * s <= x) by (nonlinear_arith)
        requires
            x >= 0,
            s > 0,
            j >= 0,
    ;
    assert(j * s <= x ==> j <= x / s) by (nonlinear_arith)
        requires
            x >= 0,
            s > 0,
            j >= 0,
    ;
}

/// Appends the bins of a block.
pub fn extend_bins(target: &mut Vec<usize>, block: &RxBinBlock)
    ensures
        final(target)@ == old(target)@ + block_bins(*block),
{
    let step = if block.step == 0 { 1 } else { block.step };
    let ghost bins = block_bins(*block);
    let ghost s = step as int;
    let ghost lim: int = if block.end < usize::MAX { block.end as int } else { usize::MAX - 1 };
    if block.start > block.end {
        assert(bins =~= Seq::<usize>::empty());
        assert(target@ =~= old(target)@ + bins);
        return;
    }
    let mut bin = block.start;
    let mut k: usize = 0;
    loop
        invariant_except_break
            bin == block.start + k * s,
            k < bins.len(),
            target@ == old(target)@ + bins.take(k as int),
        invariant
            step == step_of(*block),
            s == step as int,
            block.start <= block.end,
            bins == block_bins(*block),
            lim == (if block.end < usize::MAX { block.end as int } else { usize::MAX - 1 }),
        ensures
            target@ == old(target)@ + bins,
        decreases bins.len() - k,
    {
        target.push(bin);
        assert(target@ =~= old(target)@ + bins.take(k + 1));
        let next = bin.saturating_add(step);
        proof {
            if block.start <= lim {
                lemma_div_bound(lim - block.start, s, k + 1);
            }
            assert((k + 1) * s == k * s + s) by (nonlinear_arith);
        }
        if next == usize::MAX || next > block.end {
            assert(k + 1 == bins.len());
            assert(bins.take(k + 1) =~= bins);
            break;
        }
        bin = next;
        k = k + 1;
    }
}

/// The receiver's valid bins: the low block's, then the high block's.
pub fn valid_bins_for(low_block: &RxBinBlock, high_block: &RxBinBlock) -> (r: Vec<usize>)
    ensures
        r@ == block_bins(*low_block) + block_bins(*high_block),
{
    let mut bins: Vec<usize> = Vec::new();
    extend_bins(&mut bins, low_block);
    extend_bins(&mut bins, high_block);
    assert(bins@ =~= block_bins(*low_block) + block_bins(*high_block));
    bins
}

/// The transmit bin of a symbol: symbols 0..=127 from the low block's first
/// bin, 128..=255 from the high block's, one bin apart.
pub open spec fn tx_bin(symbol: u8, low_start: nat, high_start: nat) -> nat {
    if symbol <= 127 {
        (low_start + symbol) as nat
    } else {
        (high_start + (symbol - 128)) as nat
    }
}

/// The bin a symbol is sent on.
pub fn symbol_to_bin(symbol_value: u8, low_start: usize, high_start: usize) -> (r: usize)
    requires
        low_start + 127 <= usize::MAX,
        high_start + 127 <= usize::MAX,
    ensures
        r == tx_bin(symbol_value, low_start as nat, high_start as nat),
{
    let symbol = symbol_value as usize;
    if symbol <= 127 {
        low_start + symbol
    } else {
        high_start + (symbol - 128)
    }
}

} // verus!

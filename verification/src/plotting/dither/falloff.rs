//! What holds of the weights that Riemersma dithering gives to the errors
//! it carries: they are those of a falloff to a quarter over the 32 errors.

use super::riemersma::{error_weight, HISTORY_LENGTH, WEIGHT_UNIT};
use vstd::prelude::*;

verus! {

/// The 31st power of `b`.
pub open spec fn power31(b: int) -> int {
    let b2 = b * b;
    let b4 = b2 * b2;
    let b8 = b4 * b4;
    let b16 = b8 * b8;
    b16 * b8 * b4 * b2 * b
}

/// The `j`th power of 4.
pub open spec fn four_to(j: nat) -> int
    decreases j,
{
    if j == 0 {
        1
    } else {
        4 * four_to((j - 1) as nat)
    }
}

/// `weight` is the whole number nearest to the weight that the falloff of a
/// quarter gives to place `j` of a history of 32 errors, in units of
/// `WEIGHT_UNIT`: to `WEIGHT_UNIT * (1/4)^((31 - j)/31)`.
///
/// That number lies between `weight - 1/2` and `weight + 1/2`. Doubled and
/// raised to the 31st power, this says that `(WEIGHT_UNIT / 2)^31 * 4^j`
/// lies between `(2 * weight - 1)^31` and `(2 * weight + 1)^31`.
pub open spec fn is_nearest_weight(j: int, weight: int) -> bool {
    &&& power31(2 * weight - 1) < power31(WEIGHT_UNIT as int / 2) * four_to(j as nat)
    &&& power31(WEIGHT_UNIT as int / 2) * four_to(j as nat) < power31(2 * weight + 1)
}

/// The weights of the errors follow the falloff: the oldest error counts a
/// quarter, the latest in full, and the weight at each place between is the
/// quarter raised to the part of the way that the place lies back from the
/// latest, rounded to the nearest unit.
pub proof fn lemma_error_weights_follow_the_falloff(j: int)
    requires
        0 <= j < HISTORY_LENGTH,
    ensures
        is_nearest_weight(j, error_weight(j)),
{
    reveal_with_fuel(four_to, 32);
    if j == 0 {
        assert(power31(549_755_813_887) < power31(549_755_813_888) * 1) by (nonlinear_arith);
        assert(power31(549_755_813_888) * 1 < power31(549_755_813_889)) by (nonlinear_arith);
    } else if j == 1 {
        assert(power31(574_898_427_765) < power31(549_755_813_888) * 4) by (nonlinear_arith);
        assert(power31(549_755_813_888) * 4 < power31(574_898_427_767)) by (nonlinear_arith);
    } else if j == 2 {
        assert(power31(601_190_917_673) < power31(549_755_813_888) * 16) by (nonlinear_arith);
        assert(power31(549_755_813_888) * 16 < power31(601_190_917_675)) by (nonlinear_arith);
    } else if j == 3 {
        assert(power31(628_685_872_213) < power31(549_755_813_888) * 64) by (nonlinear_arith);
        assert(power31(549_755_813_888) * 64 < power31(628_685_872_215)) by (nonlinear_arith);
    } else if j == 4 {
        assert(power31(657_438_285_079) < power31(549_755_813_888) * 256) by (nonlinear_arith);
        assert(power31(549_755_813_888) * 256 < power31(657_438_285_081)) by (nonlinear_arith);
    } else if j == 5 {
        assert(power31(687_505_665_055) < power31(549_755_813_888) * 1_024) by (nonlinear_arith);
        assert(power31(549_755_813_888) * 1_024 < power31(687_505_665_057)) by (nonlinear_arith);
    } else if j == 6 {
        assert(power31(718_948_151_045) < power31(549_755_813_888) * 4_096) by (nonlinear_arith);
        assert(power31(549_755_813_888) * 4_096 < power31(718_948_151_047)) by (nonlinear_arith);
    } else if j == 7 {
        assert(power31(751_828_632_349) < power31(549_755_813_888) * 16_384) by (nonlinear_arith);
        assert(power31(549_755_813_888) * 16_384 < power31(751_828_632_351)) by (nonlinear_arith);
    } else if j == 8 {
        assert(power31(786_212_874_459) < power31(549_755_813_888) * 65_536) by (nonlinear_arith);
        assert(power31(549_755_813_888) * 65_536 < power31(786_212_874_461)) by (nonlinear_arith);
    } else if j == 9 {
        assert(power31(822_169_650_593) < power31(549_755_813_888) * 262_144) by (nonlinear_arith);
        assert(power31(549_755_813_888) * 262_144 < power31(822_169_650_595)) by (nonlinear_arith);
    } else if j == 10 {
        assert(power31(859_770_879_257) < power31(549_755_813_888) * 1_048_576) by (nonlinear_arith);
        assert(power31(549_755_813_888) * 1_048_576 < power31(859_770_879_259)) by (nonlinear_arith);
    } else if j == 11 {
        assert(power31(899_091_768_087) < power31(549_755_813_888) * 4_194_304) by (nonlinear_arith);
        assert(power31(549_755_813_888) * 4_194_304 < power31(899_091_768_089)) by (nonlinear_arith);
    } else if j == 12 {
        assert(power31(940_210_964_275) < power31(549_755_813_888) * 16_777_216) by (nonlinear_arith);
        assert(power31(549_755_813_888) * 16_777_216 < power31(940_210_964_277)) by (nonlinear_arith);
    } else if j == 13 {
        assert(power31(983_210_711_875) < power31(549_755_813_888) * 67_108_864) by (nonlinear_arith);
        assert(power31(549_755_813_888) * 67_108_864 < power31(983_210_711_877)) by (nonlinear_arith);
    } else if j == 14 {
        assert(power31(1_028_177_016_305) < power31(549_755_813_888) * 268_435_456) by (nonlinear_arith);
        assert(power31(549_755_813_888) * 268_435_456 < power31(1_028_177_016_307)) by (nonlinear_arith);
    } else if j == 15 {
        assert(power31(1_075_199_816_369) < power31(549_755_813_888) * 1_073_741_824) by (nonlinear_arith);
        assert(power31(549_755_813_888) * 1_073_741_824 < power31(1_075_199_816_371)) by (nonlinear_arith);
    } else if j == 16 {
        assert(power31(1_124_373_164_139) < power31(549_755_813_888) * 4_294_967_296) by (nonlinear_arith);
        assert(power31(549_755_813_888) * 4_294_967_296 < power31(1_124_373_164_141)) by (nonlinear_arith);
    } else if j == 17 {
        assert(power31(1_175_795_413_085) < power31(549_755_813_888) * 17_179_869_184) by (nonlinear_arith);
        assert(power31(549_755_813_888) * 17_179_869_184 < power31(1_175_795_413_087)) by (nonlinear_arith);
    } else if j == 18 {
        assert(power31(1_229_569_414_787) < power31(549_755_813_888) * 68_719_476_736) by (nonlinear_arith);
        assert(power31(549_755_813_888) * 68_719_476_736 < power31(1_229_569_414_789)) by (nonlinear_arith);
    } else if j == 19 {
        assert(power31(1_285_802_724_653) < power31(549_755_813_888) * 274_877_906_944) by (nonlinear_arith);
        assert(power31(549_755_813_888) * 274_877_906_944 < power31(1_285_802_724_655)) by (nonlinear_arith);
    } else if j == 20 {
        assert(power31(1_344_607_817_047) < power31(549_755_813_888) * 1_099_511_627_776) by (nonlinear_arith);
        assert(power31(549_755_813_888) * 1_099_511_627_776 < power31(1_344_607_817_049)) by (nonlinear_arith);
    } else if j == 21 {
        assert(power31(1_406_102_310_253) < power31(549_755_813_888) * 4_398_046_511_104) by (nonlinear_arith);
        assert(power31(549_755_813_888) * 4_398_046_511_104 < power31(1_406_102_310_255)) by (nonlinear_arith);
    } else if j == 22 {
        assert(power31(1_470_409_201_725) < power31(549_755_813_888) * 17_592_186_044_416) by (nonlinear_arith);
        assert(power31(549_755_813_888) * 17_592_186_044_416 < power31(1_470_409_201_727)) by (nonlinear_arith);
    } else if j == 23 {
        assert(power31(1_537_657_114_105) < power31(549_755_813_888) * 70_368_744_177_664) by (nonlinear_arith);
        assert(power31(549_755_813_888) * 70_368_744_177_664 < power31(1_537_657_114_107)) by (nonlinear_arith);
    } else if j == 24 {
        assert(power31(1_607_980_552_477) < power31(549_755_813_888) * 281_474_976_710_656) by (nonlinear_arith);
        assert(power31(549_755_813_888) * 281_474_976_710_656 < power31(1_607_980_552_479)) by (nonlinear_arith);
    } else if j == 25 {
        assert(power31(1_681_520_173_403) < power31(549_755_813_888) * 1_125_899_906_842_624) by (nonlinear_arith);
        assert(power31(549_755_813_888) * 1_125_899_906_842_624 < power31(1_681_520_173_405)) by (nonlinear_arith);
    } else if j == 26 {
        assert(power31(1_758_423_066_253) < power31(549_755_813_888) * 4_503_599_627_370_496) by (nonlinear_arith);
        assert(power31(549_755_813_888) * 4_503_599_627_370_496 < power31(1_758_423_066_255)) by (nonlinear_arith);
    } else if j == 27 {
        assert(power31(1_838_843_047_403) < power31(549_755_813_888) * 18_014_398_509_481_984) by (nonlinear_arith);
        assert(power31(549_755_813_888) * 18_014_398_509_481_984 < power31(1_838_843_047_405)) by (nonlinear_arith);
    } else if j == 28 {
        assert(power31(1_922_940_967_891) < power31(549_755_813_888) * 72_057_594_037_927_936) by (nonlinear_arith);
        assert(power31(549_755_813_888) * 72_057_594_037_927_936 < power31(1_922_940_967_893)) by (nonlinear_arith);
    } else if j == 29 {
        assert(power31(2_010_885_035_139) < power31(549_755_813_888) * 288_230_376_151_711_744) by (nonlinear_arith);
        assert(power31(549_755_813_888) * 288_230_376_151_711_744 < power31(2_010_885_035_141)) by (nonlinear_arith);
    } else if j == 30 {
        assert(power31(2_102_851_149_395) < power31(549_755_813_888) * 1_152_921_504_606_846_976) by (nonlinear_arith);
        assert(power31(549_755_813_888) * 1_152_921_504_606_846_976 < power31(2_102_851_149_397)) by (nonlinear_arith);
    } else if j == 31 {
        assert(power31(2_199_023_255_551) < power31(549_755_813_888) * 4_611_686_018_427_387_904) by (nonlinear_arith);
        assert(power31(549_755_813_888) * 4_611_686_018_427_387_904 < power31(2_199_023_255_553)) by (nonlinear_arith);
    }
}

} // verus!

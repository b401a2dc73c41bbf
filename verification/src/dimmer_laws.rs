//! What the pump's phase-angle dimmer delivers: the firing points in the table
//! are equal steps in power.

use crate::control::POWER_TO_DELAY_LUT;
use vstd::prelude::*;

verus! {

/// The power a phase-angle dimmer delivers, in parts of `10^40`, when it fires
/// `d` ten-thousandths into the half-wave: `(pi - a + sin(2 a) / 2) / pi` for the
/// angle `a` that goes with it, the sine by its series about the middle of the
/// half-wave, up to the ninth power.
pub open spec fn delivered(d: int) -> int {
    let u = d - 5_000;
    let s = u * u;
    let u3 = s * u;
    let u5 = s * u3;
    let u7 = s * u5;
    let u9 = s * u7;
    10_000 * (500_000_000_000_000_000_000_000_000_000_000_000
        - 200_000_000_000_000_000_000_000_000_000_000 * u)
        + 65_797_000_000_000_000_000_000_000_000 * u3
        - 1_298_790_000_000_000_000_000 * u5
        + 12_208_100_000_000 * u7
        - 66_939 * u9
}

/// A firing point delivers 4.86 % and another 0.903 % for each percent of duty,
/// to within 0.03 %.
pub open spec fn equal_step(percent: int, d: int) -> bool {
    let owed = 10_000 * (48_600_000_000_000_000_000_000_000_000_000_000
        + 9_030_000_000_000_000_000_000_000_000_000_000 * percent);
    let slack: int = 3_000_000_000_000_000_000_000_000_000_000_000_000;
    owed - slack <= delivered(d) <= owed + slack
}

proof fn lemma_delivered(
    percent: int,
    d: int,
    u: int,
    s: int,
    u3: int,
    u5: int,
    u7: int,
    u9: int,
)
    requires
        u == d - 5_000,
        s == u * u,
        u3 == s * u,
        u5 == s * u3,
        u7 == s * u5,
        u9 == s * u7,
        ({
            let owed = 10_000 * (48_600_000_000_000_000_000_000_000_000_000_000
                + 9_030_000_000_000_000_000_000_000_000_000_000 * percent);
            let slack: int = 3_000_000_000_000_000_000_000_000_000_000_000_000;
            let power = 10_000 * (500_000_000_000_000_000_000_000_000_000_000_000
                - 200_000_000_000_000_000_000_000_000_000_000 * u)
                + 65_797_000_000_000_000_000_000_000_000 * u3
                - 1_298_790_000_000_000_000_000 * u5
                + 12_208_100_000_000 * u7
                - 66_939 * u9;
            owed - slack <= power <= owed + slack
        }),
    ensures
        equal_step(percent, d),
{
}

/// Each percent of duty is an equal step in delivered power.
pub proof fn law_duty_is_delivered_power(percent: int)
    requires
        0 <= percent <= 100,
    ensures
        equal_step(percent, POWER_TO_DELAY_LUT[percent] as int),
{
    lemma_delivered(
        0,
        8_000,
        3_000,
        9_000_000,
        27_000_000_000,
        243_000_000_000_000_000,
        2_187_000_000_000_000_000_000_000,
        19_683_000_000_000_000_000_000_000_000_000,
    );
    lemma_delivered(
        1,
        7_876,
        2_876,
        8_271_376,
        23_788_477_376,
        196_763_440_844_389_376,
        1_627_504_402_277_702_019_301_376,
        13_461_700_852_894_129_817_600_938_213_376,
    );
    lemma_delivered(
        2,
        7_763,
        2_763,
        7_634_169,
        21_093_208_947,
        161_029_121_853_710_043,
        1_229_323_530_152_815_745_259_267,
        9_384_863_584_863_191_225_170_193_094_123,
    );
    lemma_delivered(
        3,
        7_659,
        2_659,
        7_070_281,
        18_799_877_179,
        132_920_414_421_017_299,
        939_784_680_593_044_609_791_019,
        6_644_541_771_288_072_036_757_855_606_339,
    );
    lemma_delivered(
        4,
        7_562,
        2_562,
        6_563_844,
        16_816_568_328,
        110_381_331_120_332_832,
        724_525_837_986_209_937_326_208,
        4_755_674_574_510_756_179_859_006_423_552,
    );
    lemma_delivered(
        5,
        7_471,
        2_471,
        6_105_841,
        15_087_533_111,
        92_122_078_258_001_351,
        562_482_762_432_913_226_991_191,
        3_434_430_312_656_141_330_805_120_646_631,
    );
    lemma_delivered(
        6,
        7_385,
        2_385,
        5_688_225,
        13_566_416_625,
        77_168_830_206_740_625,
        438_953_669_202_737_191_640_625,
        2_496_867_235_000_739_761_919_994_140_625,
    );
    lemma_delivered(
        7,
        7_302,
        2_302,
        5_299_204,
        12_198_767_608,
        64_643_758_103_384_032,
        342_560_461_516_485_075_910_528,
        1_815_297_767_910_003_780_205_373_619_712,
    );
    lemma_delivered(
        8,
        7_224,
        2_224,
        4_946_176,
        11_000_295_424,
        54_409_397_219_098_624,
        269_118_454_699_572_355_661_824,
        1_331_107_241_792_111_995_837_977_985_024,
    );
    lemma_delivered(
        9,
        7_148,
        2_148,
        4_613_904,
        9_910_665_792,
        45_726_860_540_371_968,
        210_979_344_754_664_384_643_072,
        973_438_442_680_925_022_962_208_473_088,
    );
    lemma_delivered(
        10,
        7_076,
        2_076,
        4_309_776,
        8_947_094_976,
        38_559_975_197_285_376,
        166_184_855_665_855_778_635_776,
        716_219_502_512_169_254_225_780_146_176,
    );
    lemma_delivered(
        11,
        7_005,
        2_005,
        4_020_025,
        8_060_150_125,
        32_402_005_006_253_125,
        130_256_870_175_262_718_828_125,
        523_635_874_526_310_511_257_033_203_125,
    );
    lemma_delivered(
        12,
        6_937,
        1_937,
        3_751_969,
        7_267_563_953,
        27_267_674_657_173_457,
        102_307_470_015_800_438_286_833,
        383_854_455_967_712_754_638_610_524_177,
    );
    lemma_delivered(
        13,
        6_871,
        1_871,
        3_500_641,
        6_549_699_311,
        22_928_145_945_758_351,
        80_263_207_751_705_459_602_991,
        280_972_675_847_137_951_810_074_017_231,
    );
    lemma_delivered(
        14,
        6_807,
        1_807,
        3_265_249,
        5_900_304_943,
        19_265_964_814_825_807,
        62_908_172_345_645_151_480_943,
        205_410_846_843_445_485_227_997_649_807,
    );
    lemma_delivered(
        15,
        6_744,
        1_744,
        3_041_536,
        5_304_438_784,
        16_133_641_521_332_224,
        49_071_051_498_226_727_256_064,
        149_251_369_689_710_527_111_499_874_304,
    );
    lemma_delivered(
        16,
        6_683,
        1_683,
        2_832_489,
        4_767_078_987,
        13_502_698_792_808_643,
        38_246_245_800_943_760_402_427,
        108_332_070_522_469_390_958_510_050_803,
    );
    lemma_delivered(
        17,
        6_623,
        1_623,
        2_634_129,
        4_275_191_367,
        11_261_405_560_364_343,
        29_663_994_967_316_966_462_247,
        78_138_789_399_263_673_550_232_227_863,
    );
    lemma_delivered(
        18,
        6_564,
        1_564,
        2_446_096,
        3_825_694_144,
        9_358_015_142_861_824,
        22_890_603_408_893_736_239_104,
        55_992_613_436_081_332_639_527_337_984,
    );
    lemma_delivered(
        19,
        6_507,
        1_507,
        2_271_049,
        3_422_470_843,
        7_772_598_985_524_307,
        17_651_953_153_475_991_888_043,
        40_088_450_557_248_497_901_348_167_107,
    );
    lemma_delivered(
        20,
        6_450,
        1_450,
        2_102_500,
        3_048_625_000,
        6_409_734_062_500_000,
        13_476_465_866_406_250_000_000,
        28_334_269_484_119_140_625_000_000_000,
    );
    lemma_delivered(
        21,
        6_395,
        1_395,
        1_946_025,
        2_714_704_875,
        5_282_883_554_371_875,
        10_280_623_468_896_528_046_875,
        20_006_350_286_059_365_992_419_921_875,
    );
    lemma_delivered(
        22,
        6_340,
        1_340,
        1_795_600,
        2_406_104_000,
        4_320_400_342_400_000,
        7_757_710_854_813_440_000_000,
        13_929_745_610_903_012_864_000_000_000,
    );
    lemma_delivered(
        23,
        6_286,
        1_286,
        1_653_796,
        2_126_781_656,
        3_517_262_995_566_176,
        5_816_835_473_015_359_604_096,
        9_619_859_237_930_909_651_815_548_416,
    );
    lemma_delivered(
        24,
        6_233,
        1_233,
        1_520_289,
        1_874_516_337,
        2_849_806_567_461_393,
        4_332_529_576_639_313_702_577,
        6_586_697_057_539_405_589_577_084_753,
    );
    lemma_delivered(
        25,
        6_181,
        1_181,
        1_394_761,
        1_647_212_741,
        2_297_468_089_849_901,
        3_204_418_890_467_137_768_661,
        4_469_398_496_086_835_541_355_385_021,
    );
    lemma_delivered(
        26,
        6_130,
        1_130,
        1_276_900,
        1_442_897_000,
        1_842_435_179_300_000,
        2_352_605_480_448_170_000_000,
        3_004_041_937_984_268_273_000_000_000,
    );
    lemma_delivered(
        27,
        6_078,
        1_078,
        1_162_084,
        1_252_726_552,
        1_455_773_482_454_368,
        1_691_731_071_584_501_782_912,
        1_965_933_610_591_204_169_893_508_608,
    );
    lemma_delivered(
        28,
        6_028,
        1_028,
        1_056_784,
        1_086_373_952,
        1_148_062_610_490_368,
        1_213_254_197_764_453_056_512,
        1_282_147_624_130_309_758_872_977_408,
    );
    lemma_delivered(
        29,
        5_978,
        978,
        956_484,
        935_441_352,
        894_734_686_126_368,
        855_799_411_524_892_970_112,
        818_558_444_332_975_727_624_606_208,
    );
    lemma_delivered(
        30,
        5_929,
        929,
        863_041,
        801_765_089,
        691_956_144_175_649,
        597_186_522_625_496_288_609,
        515_396_453_673_230_942_417_399_969,
    );
    lemma_delivered(
        31,
        5_880,
        880,
        774_400,
        681_472_000,
        527_731_916_800_000,
        408_675_596_369_920_000_000,
        316_478_381_828_866_048_000_000_000,
    );
    lemma_delivered(
        32,
        5_831,
        831,
        690_561,
        573_856_191,
        396_282_705_113_151,
        273_657_381_125_642_667_711,
        188_977_114_767_504_926_257_175_871,
    );
    lemma_delivered(
        33,
        5_783,
        783,
        613_089,
        480_048_687,
        294_312_569_464_143,
        180_439_798_900_201_967_727,
        110_625_655_867_925_924_191_778_703,
    );
    lemma_delivered(
        34,
        5_735,
        735,
        540_225,
        397_065_375,
        214_504_642_209_375,
        115_880_770_337_559_609_375,
        62_601_689_155_608_139_974_609_375,
    );
    lemma_delivered(
        35,
        5_688,
        688,
        473_344,
        325_660_672,
        154_149_525_127_168,
        72_965_752_821_794_209_792,
        34_537_901_303_679_358_439_784_448,
    );
    lemma_delivered(
        36,
        5_640,
        640,
        409_600,
        262_144_000,
        107_374_182_400_000,
        43_980_465_111_040_000_000,
        18_014_398_509_481_984_000_000_000,
    );
    lemma_delivered(
        37,
        5_594,
        594,
        352_836,
        209_584_584,
        73_948_986_280_224,
        26_091_864_523_169_115_264,
        9_206_149_110_896_897_953_288_704,
    );
    lemma_delivered(
        38,
        5_547,
        547,
        299_209,
        163_667_323,
        48_970_736_047_507,
        14_652_484_962_038_521_963,
        4_384_155_373_006_584_118_027_267,
    );
    lemma_delivered(
        39,
        5_501,
        501,
        251_001,
        125_751_501,
        31_563_752_502_501,
        7_922_533_441_880_253_501,
        1_988_563_816_445_385_509_004_501,
    );
    lemma_delivered(
        40,
        5_454,
        454,
        206_116,
        93_576_664,
        19_287_647_677_024,
        3_975_492_788_597_478_784,
        819_412_671_614_557_937_042_944,
    );
    lemma_delivered(
        41,
        5_408,
        408,
        166_464,
        67_917_312,
        11_305_787_424_768,
        1_882_006_597_876_580_352,
        313_286_346_308_927_071_715_328,
    );
    lemma_delivered(
        42,
        5_363,
        363,
        131_769,
        47_832_147,
        6_302_794_178_043,
        830_512_886_046_548_067,
        109_435_852_481_467_592_240_523,
    );
    lemma_delivered(
        43,
        5_317,
        317,
        100_489,
        31_855_013,
        3_201_078_401_357,
        321_673_167_473_963_573,
        32_324_614_926_291_125_487_197,
    );
    lemma_delivered(
        44,
        5_271,
        271,
        73_441,
        19_902_511,
        1_461_660_310_351,
        107_345_794_852_487_791,
        7_883_582_519_761_555_858_831,
    );
    lemma_delivered(
        45,
        5_226,
        226,
        51_076,
        11_543_176,
        589_579_257_376,
        30_113_350_149_736_576,
        1_538_069_472_247_945_355_776,
    );
    lemma_delivered(
        46,
        5_181,
        181,
        32_761,
        5_929_741,
        194_264_244_901,
        6_364_290_927_201_661,
        208_500_535_066_053_616_021,
    );
    lemma_delivered(
        47,
        5_135,
        135,
        18_225,
        2_460_375,
        44_840_334_375,
        817_215_093_984_375,
        14_893_745_087_865_234_375,
    );
    lemma_delivered(
        48,
        5_090,
        90,
        8_100,
        729_000,
        5_904_900_000,
        47_829_690_000_000,
        387_420_489_000_000_000,
    );
    lemma_delivered(
        49,
        5_045,
        45,
        2_025,
        91_125,
        184_528_125,
        373_669_453_125,
        756_680_642_578_125,
    );
    lemma_delivered(
        50,
        5_000,
        0,
        0,
        0,
        0,
        0,
        0,
    );
    lemma_delivered(
        51,
        4_955,
        -45,
        2_025,
        -91_125,
        -184_528_125,
        -373_669_453_125,
        -756_680_642_578_125,
    );
    lemma_delivered(
        52,
        4_910,
        -90,
        8_100,
        -729_000,
        -5_904_900_000,
        -47_829_690_000_000,
        -387_420_489_000_000_000,
    );
    lemma_delivered(
        53,
        4_865,
        -135,
        18_225,
        -2_460_375,
        -44_840_334_375,
        -817_215_093_984_375,
        -14_893_745_087_865_234_375,
    );
    lemma_delivered(
        54,
        4_819,
        -181,
        32_761,
        -5_929_741,
        -194_264_244_901,
        -6_364_290_927_201_661,
        -208_500_535_066_053_616_021,
    );
    lemma_delivered(
        55,
        4_774,
        -226,
        51_076,
        -11_543_176,
        -589_579_257_376,
        -30_113_350_149_736_576,
        -1_538_069_472_247_945_355_776,
    );
    lemma_delivered(
        56,
        4_729,
        -271,
        73_441,
        -19_902_511,
        -1_461_660_310_351,
        -107_345_794_852_487_791,
        -7_883_582_519_761_555_858_831,
    );
    lemma_delivered(
        57,
        4_683,
        -317,
        100_489,
        -31_855_013,
        -3_201_078_401_357,
        -321_673_167_473_963_573,
        -32_324_614_926_291_125_487_197,
    );
    lemma_delivered(
        58,
        4_637,
        -363,
        131_769,
        -47_832_147,
        -6_302_794_178_043,
        -830_512_886_046_548_067,
        -109_435_852_481_467_592_240_523,
    );
    lemma_delivered(
        59,
        4_592,
        -408,
        166_464,
        -67_917_312,
        -11_305_787_424_768,
        -1_882_006_597_876_580_352,
        -313_286_346_308_927_071_715_328,
    );
    lemma_delivered(
        60,
        4_546,
        -454,
        206_116,
        -93_576_664,
        -19_287_647_677_024,
        -3_975_492_788_597_478_784,
        -819_412_671_614_557_937_042_944,
    );
    lemma_delivered(
        61,
        4_499,
        -501,
        251_001,
        -125_751_501,
        -31_563_752_502_501,
        -7_922_533_441_880_253_501,
        -1_988_563_816_445_385_509_004_501,
    );
    lemma_delivered(
        62,
        4_453,
        -547,
        299_209,
        -163_667_323,
        -48_970_736_047_507,
        -14_652_484_962_038_521_963,
        -4_384_155_373_006_584_118_027_267,
    );
    lemma_delivered(
        63,
        4_406,
        -594,
        352_836,
        -209_584_584,
        -73_948_986_280_224,
        -26_091_864_523_169_115_264,
        -9_206_149_110_896_897_953_288_704,
    );
    lemma_delivered(
        64,
        4_360,
        -640,
        409_600,
        -262_144_000,
        -107_374_182_400_000,
        -43_980_465_111_040_000_000,
        -18_014_398_509_481_984_000_000_000,
    );
    lemma_delivered(
        65,
        4_312,
        -688,
        473_344,
        -325_660_672,
        -154_149_525_127_168,
        -72_965_752_821_794_209_792,
        -34_537_901_303_679_358_439_784_448,
    );
    lemma_delivered(
        66,
        4_265,
        -735,
        540_225,
        -397_065_375,
        -214_504_642_209_375,
        -115_880_770_337_559_609_375,
        -62_601_689_155_608_139_974_609_375,
    );
    lemma_delivered(
        67,
        4_217,
        -783,
        613_089,
        -480_048_687,
        -294_312_569_464_143,
        -180_439_798_900_201_967_727,
        -110_625_655_867_925_924_191_778_703,
    );
    lemma_delivered(
        68,
        4_169,
        -831,
        690_561,
        -573_856_191,
        -396_282_705_113_151,
        -273_657_381_125_642_667_711,
        -188_977_114_767_504_926_257_175_871,
    );
    lemma_delivered(
        69,
        4_120,
        -880,
        774_400,
        -681_472_000,
        -527_731_916_800_000,
        -408_675_596_369_920_000_000,
        -316_478_381_828_866_048_000_000_000,
    );
    lemma_delivered(
        70,
        4_071,
        -929,
        863_041,
        -801_765_089,
        -691_956_144_175_649,
        -597_186_522_625_496_288_609,
        -515_396_453_673_230_942_417_399_969,
    );
    lemma_delivered(
        71,
        4_022,
        -978,
        956_484,
        -935_441_352,
        -894_734_686_126_368,
        -855_799_411_524_892_970_112,
        -818_558_444_332_975_727_624_606_208,
    );
    lemma_delivered(
        72,
        3_972,
        -1_028,
        1_056_784,
        -1_086_373_952,
        -1_148_062_610_490_368,
        -1_213_254_197_764_453_056_512,
        -1_282_147_624_130_309_758_872_977_408,
    );
    lemma_delivered(
        73,
        3_922,
        -1_078,
        1_162_084,
        -1_252_726_552,
        -1_455_773_482_454_368,
        -1_691_731_071_584_501_782_912,
        -1_965_933_610_591_204_169_893_508_608,
    );
    lemma_delivered(
        74,
        3_870,
        -1_130,
        1_276_900,
        -1_442_897_000,
        -1_842_435_179_300_000,
        -2_352_605_480_448_170_000_000,
        -3_004_041_937_984_268_273_000_000_000,
    );
    lemma_delivered(
        75,
        3_819,
        -1_181,
        1_394_761,
        -1_647_212_741,
        -2_297_468_089_849_901,
        -3_204_418_890_467_137_768_661,
        -4_469_398_496_086_835_541_355_385_021,
    );
    lemma_delivered(
        76,
        3_767,
        -1_233,
        1_520_289,
        -1_874_516_337,
        -2_849_806_567_461_393,
        -4_332_529_576_639_313_702_577,
        -6_586_697_057_539_405_589_577_084_753,
    );
    lemma_delivered(
        77,
        3_714,
        -1_286,
        1_653_796,
        -2_126_781_656,
        -3_517_262_995_566_176,
        -5_816_835_473_015_359_604_096,
        -9_619_859_237_930_909_651_815_548_416,
    );
    lemma_delivered(
        78,
        3_660,
        -1_340,
        1_795_600,
        -2_406_104_000,
        -4_320_400_342_400_000,
        -7_757_710_854_813_440_000_000,
        -13_929_745_610_903_012_864_000_000_000,
    );
    lemma_delivered(
        79,
        3_605,
        -1_395,
        1_946_025,
        -2_714_704_875,
        -5_282_883_554_371_875,
        -10_280_623_468_896_528_046_875,
        -20_006_350_286_059_365_992_419_921_875,
    );
    lemma_delivered(
        80,
        3_550,
        -1_450,
        2_102_500,
        -3_048_625_000,
        -6_409_734_062_500_000,
        -13_476_465_866_406_250_000_000,
        -28_334_269_484_119_140_625_000_000_000,
    );
    lemma_delivered(
        81,
        3_493,
        -1_507,
        2_271_049,
        -3_422_470_843,
        -7_772_598_985_524_307,
        -17_651_953_153_475_991_888_043,
        -40_088_450_557_248_497_901_348_167_107,
    );
    lemma_delivered(
        82,
        3_436,
        -1_564,
        2_446_096,
        -3_825_694_144,
        -9_358_015_142_861_824,
        -22_890_603_408_893_736_239_104,
        -55_992_613_436_081_332_639_527_337_984,
    );
    lemma_delivered(
        83,
        3_377,
        -1_623,
        2_634_129,
        -4_275_191_367,
        -11_261_405_560_364_343,
        -29_663_994_967_316_966_462_247,
        -78_138_789_399_263_673_550_232_227_863,
    );
    lemma_delivered(
        84,
        3_317,
        -1_683,
        2_832_489,
        -4_767_078_987,
        -13_502_698_792_808_643,
        -38_246_245_800_943_760_402_427,
        -108_332_070_522_469_390_958_510_050_803,
    );
    lemma_delivered(
        85,
        3_256,
        -1_744,
        3_041_536,
        -5_304_438_784,
        -16_133_641_521_332_224,
        -49_071_051_498_226_727_256_064,
        -149_251_369_689_710_527_111_499_874_304,
    );
    lemma_delivered(
        86,
        3_193,
        -1_807,
        3_265_249,
        -5_900_304_943,
        -19_265_964_814_825_807,
        -62_908_172_345_645_151_480_943,
        -205_410_846_843_445_485_227_997_649_807,
    );
    lemma_delivered(
        87,
        3_129,
        -1_871,
        3_500_641,
        -6_549_699_311,
        -22_928_145_945_758_351,
        -80_263_207_751_705_459_602_991,
        -280_972_675_847_137_951_810_074_017_231,
    );
    lemma_delivered(
        88,
        3_063,
        -1_937,
        3_751_969,
        -7_267_563_953,
        -27_267_674_657_173_457,
        -102_307_470_015_800_438_286_833,
        -383_854_455_967_712_754_638_610_524_177,
    );
    lemma_delivered(
        89,
        2_995,
        -2_005,
        4_020_025,
        -8_060_150_125,
        -32_402_005_006_253_125,
        -130_256_870_175_262_718_828_125,
        -523_635_874_526_310_511_257_033_203_125,
    );
    lemma_delivered(
        90,
        2_924,
        -2_076,
        4_309_776,
        -8_947_094_976,
        -38_559_975_197_285_376,
        -166_184_855_665_855_778_635_776,
        -716_219_502_512_169_254_225_780_146_176,
    );
    lemma_delivered(
        91,
        2_852,
        -2_148,
        4_613_904,
        -9_910_665_792,
        -45_726_860_540_371_968,
        -210_979_344_754_664_384_643_072,
        -973_438_442_680_925_022_962_208_473_088,
    );
    lemma_delivered(
        92,
        2_776,
        -2_224,
        4_946_176,
        -11_000_295_424,
        -54_409_397_219_098_624,
        -269_118_454_699_572_355_661_824,
        -1_331_107_241_792_111_995_837_977_985_024,
    );
    lemma_delivered(
        93,
        2_698,
        -2_302,
        5_299_204,
        -12_198_767_608,
        -64_643_758_103_384_032,
        -342_560_461_516_485_075_910_528,
        -1_815_297_767_910_003_780_205_373_619_712,
    );
    lemma_delivered(
        94,
        2_615,
        -2_385,
        5_688_225,
        -13_566_416_625,
        -77_168_830_206_740_625,
        -438_953_669_202_737_191_640_625,
        -2_496_867_235_000_739_761_919_994_140_625,
    );
    lemma_delivered(
        95,
        2_529,
        -2_471,
        6_105_841,
        -15_087_533_111,
        -92_122_078_258_001_351,
        -562_482_762_432_913_226_991_191,
        -3_434_430_312_656_141_330_805_120_646_631,
    );
    lemma_delivered(
        96,
        2_438,
        -2_562,
        6_563_844,
        -16_816_568_328,
        -110_381_331_120_332_832,
        -724_525_837_986_209_937_326_208,
        -4_755_674_574_510_756_179_859_006_423_552,
    );
    lemma_delivered(
        97,
        2_341,
        -2_659,
        7_070_281,
        -18_799_877_179,
        -132_920_414_421_017_299,
        -939_784_680_593_044_609_791_019,
        -6_644_541_771_288_072_036_757_855_606_339,
    );
    lemma_delivered(
        98,
        2_237,
        -2_763,
        7_634_169,
        -21_093_208_947,
        -161_029_121_853_710_043,
        -1_229_323_530_152_815_745_259_267,
        -9_384_863_584_863_191_225_170_193_094_123,
    );
    lemma_delivered(
        99,
        2_124,
        -2_876,
        8_271_376,
        -23_788_477_376,
        -196_763_440_844_389_376,
        -1_627_504_402_277_702_019_301_376,
        -13_461_700_852_894_129_817_600_938_213_376,
    );
    lemma_delivered(
        100,
        2_000,
        -3_000,
        9_000_000,
        -27_000_000_000,
        -243_000_000_000_000_000,
        -2_187_000_000_000_000_000_000_000,
        -19_683_000_000_000_000_000_000_000_000_000,
    );
}

} // verus!

//! Terminal colors and the Mermaid theme derived from them.

use vstd::prelude::*;
use vstd::slice::slice_subrange;

use crate::fonts;
use crate::json;
use crate::json::{Model, Value};
use crate::text;

verus! {

#[derive(Clone, Copy, Debug, PartialEq, Eq, Structural)]
pub struct Rgb(pub u8, pub u8, pub u8);

// ---------------------------------------------------------------------------------------------
// Colors as text.

/// A hexadecimal digit.
pub open spec fn hex_digit(n: u8) -> char {
    if n < 10 {
        (48 + n) as char
    } else {
        (87 + n) as char
    }
}

/// A color as `#rrggbb`.
pub open spec fn hex_text(c: Rgb) -> Seq<char> {
    seq![
        '#',
        hex_digit(c.0 / 16),
        hex_digit(c.0 % 16),
        hex_digit(c.1 / 16),
        hex_digit(c.1 % 16),
        hex_digit(c.2 / 16),
        hex_digit(c.2 % 16),
    ]
}

/// The largest number with so many hexadecimal digits.
pub open spec fn channel_max(digits: nat) -> nat {
    if digits == 1 {
        0xf
    } else if digits == 2 {
        0xff
    } else if digits == 3 {
        0xfff
    } else {
        0xffff
    }
}

/// A color channel of one to four hexadecimal digits, scaled to 0 to 255.
pub open spec fn scaled(digits: Seq<char>) -> Option<u8> {
    if 1 <= digits.len() <= 4 && text::all_digits(digits, 16) {
        let max = channel_max(digits.len());
        Some(((text::value(digits, 16) * 255 + max / 2) / max) as u8)
    } else {
        None
    }
}

/// The color of three channels.
pub open spec fn color_of(r: Option<u8>, g: Option<u8>, b: Option<u8>) -> Option<Rgb> {
    match (r, g, b) {
        (Some(r), Some(g), Some(b)) => Some(Rgb(r, g, b)),
        _ => None,
    }
}

/// The color that a terminal's report names: `rgb:r/g/b`, `#rgb` or `#rrggbb`.
pub open spec fn parsed(spec: Seq<char>) -> Option<Rgb> {
    let s = text::trimmed(spec);
    if text::starts(s, "rgb:"@) {
        let parts = text::split(s.skip(4), '/');
        if parts.len() == 3 {
            color_of(scaled(parts[0]), scaled(parts[1]), scaled(parts[2]))
        } else {
            None
        }
    } else if s.len() > 0 && s[0] == '#' {
        let hex = s.skip(1);
        if hex.len() == 3 {
            color_of(
                scaled(hex.subrange(0, 1)),
                scaled(hex.subrange(1, 2)),
                scaled(hex.subrange(2, 3)),
            )
        } else if hex.len() == 6 {
            color_of(
                scaled(hex.subrange(0, 2)),
                scaled(hex.subrange(2, 4)),
                scaled(hex.subrange(4, 6)),
            )
        } else {
            None
        }
    } else {
        None
    }
}

fn scaled_channel(digits: &[char]) -> (r: Option<u8>)
    ensures
        r == scaled(digits@),
{
    // Numbers may have a plus sign before them, which is no digit.
    if digits.len() == 0 || digits.len() > 4 || digits[0] == '+' {
        assert(digits@.len() > 0 && digits@[0] == '+' ==> !text::all_digits(digits@, 16));
        return None;
    }
    proof {
        if text::all_digits(digits@, 16) {
            lemma_value_bound(digits@);
        }
    }
    match text::parse_number(digits, 16, u32::MAX as u64) {
        Some(value) => {
            let max: u64 = if digits.len() == 1 {
                0xf
            } else if digits.len() == 2 {
                0xff
            } else if digits.len() == 3 {
                0xfff
            } else {
                0xffff
            };
            proof {
                lemma_scaled_bound(value as int, max as int);
            }
            Some(((value * 255 + max / 2) / max) as u8)
        },
        None => None,
    }
}

pub proof fn lemma_scaled_bound(value: int, max: int)
    requires
        0 <= value <= max,
        max > 0,
    ensures
        0 <= (value * 255 + max / 2) / max <= 255,
{
    assert(value * 255 + max / 2 < 256 * max);
    assert((value * 255 + max / 2) / max <= 255) by (nonlinear_arith)
        requires
            0 <= value * 255 + max / 2 < 256 * max,
            max > 0,
    ;
    assert((value * 255 + max / 2) / max >= 0) by (nonlinear_arith)
        requires
            0 <= value * 255 + max / 2,
            max > 0,
    ;
}

spec fn power(digits: nat) -> int
    decreases digits,
{
    if digits == 0 {
        1
    } else {
        16 * power((digits - 1) as nat)
    }
}

proof fn lemma_value_power(s: Seq<char>)
    requires
        text::all_digits(s, 16),
    ensures
        text::value(s, 16) < power(s.len()),
    decreases s.len(),
{
    if s.len() > 0 {
        assert forall|i: int| 0 <= i < s.len() - 1 implies text::digit_value(
            #[trigger] s.drop_last()[i],
            16,
        ) is Some by {
            assert(s[i] == s.drop_last()[i]);
        }
        lemma_value_power(s.drop_last());
        assert(text::digit_value(s[s.len() - 1], 16) is Some);
    }
}

pub proof fn lemma_value_bound(digits: Seq<char>)
    requires
        1 <= digits.len() <= 4,
        text::all_digits(digits, 16),
    ensures
        text::value(digits, 16) <= channel_max(digits.len()) <= 0xffff,
{
    reveal_with_fuel(power, 5);
    lemma_value_power(digits);
}

// ---------------------------------------------------------------------------------------------
// Mixing colors, as single-precision arithmetic does it.

/// The unit of a mixing amount: an amount is a number of `ONE`-ths.
pub const ONE: u32 = 268_435_456;

/// The smallest power of two, from `unit` on, of which 24 bits reach `n`.
pub open spec fn unit_from(n: int, unit: int) -> int
    decreases n - unit,
{
    if unit <= 0 || n < 0x100_0000 * unit {
        unit
    } else {
        unit_from(n, 2 * unit)
    }
}

/// `n` rounded to 24 significant bits, ties to even.
pub open spec fn single(n: int) -> int {
    let unit = unit_from(n, 1);
    let q = n / unit;
    let r = n % unit;
    if 2 * r > unit || (2 * r == unit && q % 2 == 1) {
        (q + 1) * unit
    } else {
        q * unit
    }
}

/// One channel mixed from `a` to `b`.
pub open spec fn mixed_channel(a: u8, b: u8, amount: int) -> int {
    let v = if a <= b {
        single(a * ONE + single((b - a) * amount))
    } else {
        single(a * ONE - single((a - b) * amount))
    };
    (v + ONE / 2) / (ONE as int)
}

/// `a` mixed with `b`; an amount of 0 is all `a`, and `ONE` all `b`.
pub open spec fn mixed(a: Rgb, b: Rgb, amount: int) -> Rgb {
    Rgb(
        mixed_channel(a.0, b.0, amount) as u8,
        mixed_channel(a.1, b.1, amount) as u8,
        mixed_channel(a.2, b.2, amount) as u8,
    )
}

pub proof fn lemma_unit(n: int)
    requires
        0 <= n <= 255 * ONE,
    ensures
        ({
            let u = unit_from(n, 1);
            u == 1 || u == 2 || u == 4 || u == 8 || u == 16 || u == 32 || u == 64 || u == 128 || u
                == 256 || u == 512 || u == 1024 || u == 2048 || u == 4096
        }),
{
    reveal_with_fuel(unit_from, 14);
}

proof fn lemma_single_bound(n: int, m: int)
    requires
        0 <= n <= m * ONE,
        0 <= m <= 255,
    ensures
        0 <= single(n) <= m * ONE,
        n == m * ONE ==> single(n) == n,
{
    lemma_unit(n);
    let u = unit_from(n, 1);
    let k = ONE as int / u;
    assert(k * u == 268_435_456) by (nonlinear_arith)
        requires
            k == 268_435_456int / u,
            u == 1 || u == 2 || u == 4 || u == 8 || u == 16 || u == 32 || u == 64 || u == 128 || u
                == 256 || u == 512 || u == 1024 || u == 2048 || u == 4096,
    ;
    let q = n / u;
    let r = n % u;
    assert(n == q * u + r && 0 <= r < u && 0 <= q) by (nonlinear_arith)
        requires
            u > 0,
            q == n / u,
            r == n % u,
            0 <= n,
    ;
    assert((m * k) * u == m * ONE) by (nonlinear_arith)
        requires
            k * u == ONE,
    ;
    let t = m * k;
    assert(q < t || (q == t && r == 0)) by (nonlinear_arith)
        requires
            q * u + r <= t * u,
            0 <= r < u,
            u > 0,
    ;
    if q < t {
        assert((q + 1) * u <= t * u && 0 <= q * u <= t * u) by (nonlinear_arith)
            requires
                0 <= q < t,
                u > 0,
        ;
        if n == m * ONE {
            assert(q == t && r == 0) by (nonlinear_arith)
                requires
                    q * u + r == t * u,
                    0 <= r < u,
                    u > 0,
            ;
        }
    }
    assert(0 <= (q + 1) * u) by (nonlinear_arith)
        requires
            0 <= q,
            u > 0,
    ;
}

pub proof fn lemma_scale(d: int, amount: int)
    requires
        0 <= d <= 255,
        0 <= amount <= ONE,
    ensures
        0 <= d * amount <= d * ONE,
{
    assert(0 <= d * amount <= d * ONE) by (nonlinear_arith)
        requires
            0 <= d,
            0 <= amount <= ONE,
    ;
}

pub proof fn lemma_channel(a: u8, b: u8, amount: int)
    requires
        0 <= amount <= ONE,
    ensures
        0 <= mixed_channel(a, b, amount) <= 255,
        a <= b ==> 0 <= single((b - a) * amount) <= (b - a) * ONE,
        a <= b ==> 0 <= single(a * ONE + single((b - a) * amount)) <= 255 * ONE,
        a > b ==> 0 <= single((a - b) * amount) <= (a - b) * ONE,
        a > b ==> 0 <= single(a * ONE - single((a - b) * amount)) <= 255 * ONE,
        amount == 0 ==> mixed_channel(a, b, amount) == a,
        amount == ONE ==> mixed_channel(a, b, amount) == b,
{
    if a <= b {
        let d = b - a;
        lemma_scale(d, amount);
        lemma_single_bound(d * amount, d);
        lemma_single_bound(a * ONE + single(d * amount), b as int);
        if amount == 0 {
            assert(d * amount == 0) by (nonlinear_arith)
                requires
                    amount == 0,
            ;
            lemma_single_bound(0, 0);
            lemma_single_bound(a * ONE, a as int);
        }
    } else {
        let d = a - b;
        lemma_scale(d, amount);
        lemma_single_bound(d * amount, d);
        lemma_single_bound(a * ONE - single(d * amount), a as int);
        if amount == 0 {
            assert(d * amount == 0) by (nonlinear_arith)
                requires
                    amount == 0,
            ;
            lemma_single_bound(0, 0);
        }
        if amount == ONE {
            lemma_single_bound(b * ONE, b as int);
        }
    }
}

/// Mixing by nothing keeps a color, and mixing by [`ONE`] replaces it.
pub proof fn mixing_runs_from_end_to_end(a: Rgb, b: Rgb)
    ensures
        mixed(a, b, 0) == a,
        mixed(a, b, ONE as int) == b,
{
    lemma_channel(a.0, b.0, 0);
    lemma_channel(a.1, b.1, 0);
    lemma_channel(a.2, b.2, 0);
    lemma_channel(a.0, b.0, ONE as int);
    lemma_channel(a.1, b.1, ONE as int);
    lemma_channel(a.2, b.2, ONE as int);
}

/// `n` rounded to 24 significant bits.
fn round_single(n: u64) -> (r: u64)
    requires
        n <= 255 * ONE,
    ensures
        r == single(n as int),
{
    let mut unit: u64 = 1;
    while n >= 0x100_0000 * unit
        invariant
            n <= 255 * ONE,
            0 < unit <= 8192,
            unit_from(n as int, 1) == unit_from(n as int, unit as int),
        decreases n - unit,
    {
        unit = 2 * unit;
    }
    let q: u64 = n / unit;
    let r: u64 = n % unit;
    proof {
        lemma_single_bound(n as int, 255);
        assert(q * unit <= n && (q + 1) * unit <= n + unit) by (nonlinear_arith)
            requires
                unit > 0,
                q == n / unit,
        ;
        assert(q <= n) by (nonlinear_arith)
            requires
                unit > 0,
                q == n / unit,
        ;
    }
    if 2 * r > unit || (2 * r == unit && q % 2 == 1) {
        (q + 1) * unit
    } else {
        q * unit
    }
}

fn mix_channel(a: u8, b: u8, amount: u32) -> (r: u8)
    requires
        amount <= ONE,
    ensures
        r == mixed_channel(a, b, amount as int),
{
    proof {
        lemma_channel(a, b, amount as int);
    }
    let base: u64 = a as u64 * ONE as u64;
    let v: u64 = if a <= b {
        let d: u64 = b as u64 - a as u64;
        proof {
            lemma_scale(d as int, amount as int);
        }
        let step: u64 = round_single(d * amount as u64);
        round_single(base + step)
    } else {
        let d: u64 = a as u64 - b as u64;
        proof {
            lemma_scale(d as int, amount as int);
        }
        let step: u64 = round_single(d * amount as u64);
        round_single(base - step)
    };
    ((v + ONE as u64 / 2) / ONE as u64) as u8
}

// ---------------------------------------------------------------------------------------------
// Luminance.

/// The linear intensity of each channel value, in billionths.
pub const LINEAR: [u32; 256] = [
    0, 303_527, 607_054, 910_581, 1_214_108, 1_517_635, 1_821_162, 2_124_689,
    2_428_216, 2_731_743, 3_035_270, 3_346_536, 3_676_507, 4_024_717, 4_391_442, 4_776_953,
    5_181_517, 5_605_392, 6_048_833, 6_512_091, 6_995_410, 7_499_032, 8_023_193, 8_568_126,
    9_134_059, 9_721_217, 10_329_823, 10_960_094, 11_612_245, 12_286_488, 12_983_032, 13_702_083,
    14_443_844, 15_208_514, 15_996_293, 16_807_376, 17_641_954, 18_500_220, 19_382_361, 20_288_563,
    21_219_010, 22_173_885, 23_153_366, 24_157_632, 25_186_860, 26_241_222, 27_320_892, 28_426_040,
    29_556_834, 30_713_444, 31_896_033, 33_104_767, 34_339_807, 35_601_315, 36_889_450, 38_204_372,
    39_546_235, 40_915_197, 42_311_411, 43_735_029, 45_186_204, 46_665_086, 48_171_824, 49_706_566,
    51_269_458, 52_860_647, 54_480_276, 56_128_490, 57_805_430, 59_511_238, 61_246_054, 63_010_018,
    64_803_267, 66_625_939, 68_478_170, 70_360_096, 72_271_851, 74_213_568, 76_185_381, 78_187_422,
    80_219_820, 82_282_707, 84_376_212, 86_500_462, 88_655_586, 90_841_711, 93_058_963, 95_307_467,
    97_587_347, 99_898_728, 102_241_733, 104_616_484, 107_023_103, 109_461_711, 111_932_428, 114_435_374,
    116_970_668, 119_538_428, 122_138_772, 124_771_818, 127_437_680, 130_136_477, 132_868_322, 135_633_330,
    138_431_615, 141_263_291, 144_128_471, 147_027_266, 149_959_790, 152_926_152, 155_926_464, 158_960_835,
    162_029_376, 165_132_195, 168_269_400, 171_441_101, 174_647_404, 177_888_416, 181_164_244, 184_474_995,
    187_820_772, 191_201_683, 194_617_830, 198_069_320, 201_556_254, 205_078_736, 208_636_870, 212_230_757,
    215_860_500, 219_526_200, 223_227_957, 226_965_874, 230_740_049, 234_550_582, 238_397_574, 242_281_122,
    246_201_327, 250_158_285, 254_152_094, 258_182_853, 262_250_658, 266_355_605, 270_497_791, 274_677_312,
    278_894_263, 283_148_740, 287_440_838, 291_770_650, 296_138_271, 300_543_794, 304_987_314, 309_468_923,
    313_988_713, 318_546_778, 323_143_209, 327_778_098, 332_451_536, 337_163_615, 341_914_425, 346_704_056,
    351_532_600, 356_400_144, 361_306_780, 366_252_596, 371_237_680, 376_262_123, 381_326_011, 386_429_434,
    391_572_478, 396_755_231, 401_977_780, 407_240_212, 412_542_613, 417_885_071, 423_267_670, 428_690_497,
    434_153_636, 439_657_174, 445_201_195, 450_785_783, 456_411_023, 462_077_000, 467_783_796, 473_531_496,
    479_320_183, 485_149_940, 491_020_850, 496_932_995, 502_886_458, 508_881_321, 514_917_665, 520_995_573,
    527_115_126, 533_276_404, 539_479_489, 545_724_461, 552_011_402, 558_340_390, 564_711_506, 571_124_829,
    577_580_440, 584_078_418, 590_618_841, 597_201_788, 603_827_339, 610_495_571, 617_206_562, 623_960_392,
    630_757_136, 637_596_874, 644_479_682, 651_405_637, 658_374_817, 665_387_298, 672_443_157, 679_542_470,
    686_685_312, 693_871_761, 701_101_892, 708_375_780, 715_693_501, 723_055_129, 730_460_740, 737_910_409,
    745_404_210, 752_942_217, 760_524_505, 768_151_147, 775_822_218, 783_537_792, 791_297_940, 799_102_738,
    806_952_258, 814_846_572, 822_785_754, 830_769_877, 838_799_012, 846_873_232, 854_992_608, 863_157_213,
    871_367_119, 879_622_397, 887_923_118, 896_269_353, 904_661_174, 913_098_652, 921_581_856, 930_110_858,
    938_685_728, 947_306_537, 955_973_353, 964_686_248, 973_445_290, 982_250_550, 991_102_097, 1_000_000_000,
];

/// Luminance below which a color is dark, in ten-thousandths of billionths: just under a fifth,
/// where single-precision arithmetic draws the line between two neighboring colors.
pub const DARK_BELOW: u64 = 1_999_999_500_000;

/// WCAG relative luminance, in ten-thousandths of billionths.
pub open spec fn relative_luminance(c: Rgb) -> int {
    2126 * LINEAR@[c.0 as int] + 7152 * LINEAR@[c.1 as int] + 722 * LINEAR@[c.2 as int]
}

/// Whether a color is dark.
pub open spec fn dark(c: Rgb) -> bool {
    relative_luminance(c) < DARK_BELOW
}

fn linear(c: u8) -> (r: u64)
    ensures
        r == LINEAR@[c as int],
        r <= u32::MAX,
{
    LINEAR[c as usize] as u64
}

impl Rgb {
    /// Parses a color the way terminals report it: `rgb:r/g/b` with one to four hex digits
    /// per channel, or `#rgb` / `#rrggbb`.
    pub fn parse_x11(spec: &str) -> (color: Option<Rgb>)
        ensures
            color == parsed(spec@),
    {
        let all = text::chars(spec);
        let s = text::trim(&all);
        if text::starts_with(s, "rgb:") {
            proof {
                reveal_strlit("rgb:");
            }
            let channels = slice_subrange(s, 4, s.len());
            assert(channels@ =~= s@.skip(4));
            return parse_channels(channels);
        }
        if s.len() == 0 || s[0] != '#' {
            return None;
        }
        let hex = slice_subrange(s, 1, s.len());
        assert(hex@ =~= s@.skip(1));
        let width: usize = if hex.len() == 3 {
            1
        } else if hex.len() == 6 {
            2
        } else {
            return None;
        };
        let r = scaled_channel(slice_subrange(hex, 0, width));
        let g = scaled_channel(slice_subrange(hex, width, 2 * width));
        let b = scaled_channel(slice_subrange(hex, 2 * width, 3 * width));
        match (r, g, b) {
            (Some(r), Some(g), Some(b)) => Some(Rgb(r, g, b)),
            _ => None,
        }
    }

    /// Interpolates towards `other`; `amount` runs from 0 (self) to [`ONE`] (other).
    pub fn mix(self, other: Rgb, amount: u32) -> (color: Rgb)
        requires
            amount <= ONE,
        ensures
            color == mixed(self, other, amount as int),
    {
        Rgb(
            mix_channel(self.0, other.0, amount),
            mix_channel(self.1, other.1, amount),
            mix_channel(self.2, other.2, amount),
        )
    }

    /// WCAG relative luminance, 0 for black to 10_000_000_000_000 for white.
    pub fn luminance(self) -> (r: u64)
        ensures
            r == relative_luminance(self),
    {
        2126 * linear(self.0) + 7152 * linear(self.1) + 722 * linear(self.2)
    }

    pub fn is_dark(self) -> (r: bool)
        ensures
            r == dark(self),
    {
        self.luminance() < DARK_BELOW
    }

    pub fn hex(self) -> (s: String)
        ensures
            s@ == hex_text(self),
    {
        let mut s = String::new();
        s.push('#');
        push_hex(&mut s, self.0);
        push_hex(&mut s, self.1);
        push_hex(&mut s, self.2);
        assert(s@ =~= hex_text(self));
        s
    }
}

fn push_hex(s: &mut String, c: u8)
    ensures
        final(s)@ == old(s)@.push(hex_digit(c / 16)).push(hex_digit(c % 16)),
{
    s.push(digit(c / 16));
    s.push(digit(c % 16));
}

fn digit(n: u8) -> (c: char)
    requires
        n < 16,
    ensures
        c == hex_digit(n),
{
    if n < 10 {
        (48 + n) as char
    } else {
        (87 + n) as char
    }
}

/// The color that three channels between slashes give.
fn parse_channels(channels: &[char]) -> (color: Option<Rgb>)
    ensures
        color == ({
            let parts = text::split(channels@, '/');
            if parts.len() == 3 {
                color_of(scaled(parts[0]), scaled(parts[1]), scaled(parts[2]))
            } else {
                None
            }
        }),
{
    reveal_with_fuel(text::split, 4);
    let first: usize = text::position(channels, '/');
    if first == channels.len() {
        return None;
    }
    let r = slice_subrange(channels, 0, first);
    let rest = slice_subrange(channels, first + 1, channels.len());
    assert(r@ =~= channels@.take(first as int));
    assert(rest@ =~= channels@.skip(first + 1));
    let second: usize = text::position(rest, '/');
    if second == rest.len() {
        return None;
    }
    let g = slice_subrange(rest, 0, second);
    let b = slice_subrange(rest, second + 1, rest.len());
    assert(g@ =~= rest@.take(second as int));
    assert(b@ =~= rest@.skip(second + 1));
    let third: usize = text::position(b, '/');
    if third < b.len() {
        return None;
    }
    match (scaled_channel(r), scaled_channel(g), scaled_channel(b)) {
        (Some(r), Some(g), Some(b)) => Some(Rgb(r, g, b)),
        _ => None,
    }
}

// ---------------------------------------------------------------------------------------------
// The theme.

/// Colors reported by the terminal.
#[derive(Clone, Copy, Debug, PartialEq, Eq)]
pub struct Palette {
    pub fg: Option<Rgb>,
    pub bg: Option<Rgb>,
    /// ANSI colors 1 to 6: red, green, yellow, blue, magenta, cyan.
    pub ansi: [Option<Rgb>; 6],
}

/// What a [`Palette`] holds.
#[verifier::ext_equal]
pub struct PaletteModel {
    pub fg: Option<Rgb>,
    pub bg: Option<Rgb>,
    pub ansi: Seq<Option<Rgb>>,
}

impl View for Palette {
    type V = PaletteModel;

    open spec fn view(&self) -> PaletteModel {
        PaletteModel { fg: self.fg, bg: self.bg, ansi: self.ansi@ }
    }
}

/// A palette of a terminal that reported nothing.
pub open spec fn no_colors() -> PaletteModel {
    PaletteModel { fg: None, bg: None, ansi: Seq::new(6, |i: int| None) }
}

/// A palette with one more color recorded.
pub open spec fn recorded(palette: PaletteModel, index: u16, color: Rgb) -> PaletteModel {
    if index == 10 {
        PaletteModel { fg: Some(color), ..palette }
    } else if index == 11 {
        PaletteModel { bg: Some(color), ..palette }
    } else if 1 <= index <= 6 {
        PaletteModel { ansi: palette.ansi.update(index - 1, Some(color)), ..palette }
    } else {
        palette
    }
}

impl Default for Palette {
    fn default() -> (palette: Palette)
        ensures
            palette@ == no_colors(),
    {
        let palette = Palette { fg: None, bg: None, ansi: [None, None, None, None, None, None] };
        assert(palette@.ansi =~= no_colors().ansi);
        palette
    }
}

impl Palette {
    /// Records a color query reply: 10 is the foreground, 11 the background, 1 to 6 are ANSI.
    pub fn set(&mut self, index: u16, color: Rgb)
        ensures
            final(self)@ == recorded(old(self)@, index, color),
    {
        if index == 10 {
            self.fg = Some(color);
        } else if index == 11 {
            self.bg = Some(color);
        } else if 1 <= index && index <= 6 {
            self.ansi[index as usize - 1] = Some(color);
        }
    }
}

/// ANSI colors 1 to 6 for terminals that don't report theirs (One Dark).
pub const DARK_ANSI: [(u8, u8, u8); 6] = [
    (0xe0, 0x6c, 0x75),
    (0x98, 0xc3, 0x79),
    (0xe5, 0xc0, 0x7b),
    (0x61, 0xaf, 0xef),
    (0xc6, 0x78, 0xdd),
    (0x56, 0xb6, 0xc2),
];

/// ANSI colors 1 to 6 for terminals that don't report theirs (One Light).
pub const LIGHT_ANSI: [(u8, u8, u8); 6] = [
    (0xe4, 0x56, 0x49),
    (0x50, 0xa1, 0x4f),
    (0xc1, 0x84, 0x01),
    (0x40, 0x78, 0xf2),
    (0xa6, 0x26, 0xa4),
    (0x01, 0x84, 0xbc),
];

/// The colors a theme is made of.
#[derive(Clone, Copy, Debug, PartialEq, Eq, Structural)]
pub struct Colors {
    pub fg: Rgb,
    pub bg: Rgb,
    pub red: Rgb,
    pub green: Rgb,
    pub yellow: Rgb,
    pub blue: Rgb,
    pub magenta: Rgb,
    pub cyan: Rgb,
}

/// Which of the colors a theme variable shows.
#[derive(Clone, Copy, Debug, PartialEq, Eq, Structural)]
pub enum Source {
    Fg,
    Bg,
    Red,
    Green,
    Yellow,
    Blue,
    Magenta,
    Cyan,
}

/// How much of a color a theme variable shows over the background: hundredths, as single
/// precision holds them.
#[derive(Clone, Copy, Debug, PartialEq, Eq, Structural)]
pub enum Share {
    P04,
    P05,
    P06,
    P08,
    P10,
    P14,
    P15,
    P18,
    P20,
    P25,
    P30,
    P35,
    P45,
    P60,
    P65,
    P70,
    P75,
    P80,
    P35Weak,
    P75Weak,
    Whole,
}

/// A share in units of [`ONE`]. The weak shares are the named one times 0.60.
pub open spec fn share_of(share: Share) -> u32 {
    match share {
        Share::P04 => 10_737_418,
        Share::P05 => 13_421_773,
        Share::P06 => 16_106_127,
        Share::P08 => 21_474_836,
        Share::P10 => 26_843_546,
        Share::P14 => 37_580_964,
        Share::P15 => 40_265_320,
        Share::P18 => 48_318_384,
        Share::P20 => 53_687_092,
        Share::P25 => 67_108_864,
        Share::P30 => 80_530_640,
        Share::P35 => 93_952_408,
        Share::P45 => 120_795_952,
        Share::P60 => 161_061_280,
        Share::P65 => 174_483_040,
        Share::P70 => 187_904_816,
        Share::P75 => 201_326_592,
        Share::P80 => 214_748_368,
        Share::P35Weak => 56_371_448,
        Share::P75Weak => 120_795_960,
        Share::Whole => ONE,
    }
}

impl Share {
    /// The share in units of [`ONE`].
    pub fn amount(self) -> (r: u32)
        ensures
            r == share_of(self),
            r <= ONE,
    {
        match self {
            Share::P04 => 10_737_418,
            Share::P05 => 13_421_773,
            Share::P06 => 16_106_127,
            Share::P08 => 21_474_836,
            Share::P10 => 26_843_546,
            Share::P14 => 37_580_964,
            Share::P15 => 40_265_320,
            Share::P18 => 48_318_384,
            Share::P20 => 53_687_092,
            Share::P25 => 67_108_864,
            Share::P30 => 80_530_640,
            Share::P35 => 93_952_408,
            Share::P45 => 120_795_952,
            Share::P60 => 161_061_280,
            Share::P65 => 174_483_040,
            Share::P70 => 187_904_816,
            Share::P75 => 201_326_592,
            Share::P80 => 214_748_368,
            Share::P35Weak => 56_371_448,
            Share::P75Weak => 120_795_960,
            Share::Whole => ONE,
        }
    }
}

/// Theme variables and the colors they show.
pub const VARIABLES: [(&'static str, Source, Share); 109] = [
    ("background", Source::Bg, Share::Whole),
    ("textColor", Source::Fg, Share::Whole),
    ("titleColor", Source::Fg, Share::Whole),
    ("lineColor", Source::Fg, Share::P65),
    ("arrowheadColor", Source::Fg, Share::P65),
    ("primaryColor", Source::Blue, Share::P20),
    ("primaryBorderColor", Source::Blue, Share::P70),
    ("primaryTextColor", Source::Fg, Share::Whole),
    ("secondaryColor", Source::Magenta, Share::P20),
    ("secondaryBorderColor", Source::Magenta, Share::P70),
    ("secondaryTextColor", Source::Fg, Share::Whole),
    ("tertiaryColor", Source::Fg, Share::P08),
    ("tertiaryBorderColor", Source::Fg, Share::P30),
    ("tertiaryTextColor", Source::Fg, Share::Whole),
    ("mainBkg", Source::Blue, Share::P20),
    ("nodeBorder", Source::Blue, Share::P70),
    ("nodeTextColor", Source::Fg, Share::Whole),
    ("clusterBkg", Source::Fg, Share::P05),
    ("clusterBorder", Source::Fg, Share::P30),
    ("edgeLabelBackground", Source::Bg, Share::Whole),
    ("defaultLinkColor", Source::Fg, Share::P65),
    ("errorBkgColor", Source::Red, Share::P30),
    ("errorTextColor", Source::Fg, Share::Whole),
    // Sequence diagrams.
    ("noteBkgColor", Source::Yellow, Share::P25),
    ("noteBorderColor", Source::Yellow, Share::P60),
    ("noteTextColor", Source::Fg, Share::Whole),
    ("actorBkg", Source::Blue, Share::P20),
    ("actorBorder", Source::Blue, Share::P70),
    ("actorTextColor", Source::Fg, Share::Whole),
    ("actorLineColor", Source::Fg, Share::P45),
    ("signalColor", Source::Fg, Share::Whole),
    ("signalTextColor", Source::Fg, Share::Whole),
    ("labelBoxBkgColor", Source::Blue, Share::P20),
    ("labelBoxBorderColor", Source::Blue, Share::P70),
    ("labelTextColor", Source::Fg, Share::Whole),
    ("loopTextColor", Source::Fg, Share::Whole),
    ("activationBkgColor", Source::Fg, Share::P15),
    ("activationBorderColor", Source::Fg, Share::P65),
    ("sequenceNumberColor", Source::Bg, Share::Whole),
    // Class and state diagrams.
    ("classText", Source::Fg, Share::Whole),
    ("stateBkg", Source::Blue, Share::P20),
    ("stateBorder", Source::Blue, Share::P70),
    ("stateLabelColor", Source::Fg, Share::Whole),
    ("labelBackgroundColor", Source::Blue, Share::P20),
    ("compositeBackground", Source::Bg, Share::Whole),
    ("compositeTitleBackground", Source::Blue, Share::P20),
    ("compositeBorder", Source::Blue, Share::P70),
    ("altBackground", Source::Fg, Share::P08),
    ("innerEndBackground", Source::Blue, Share::P70),
    ("specialStateColor", Source::Fg, Share::P65),
    ("transitionColor", Source::Fg, Share::P65),
    ("transitionLabelColor", Source::Fg, Share::Whole),
    // Entity relationship diagrams.
    ("attributeBackgroundColorOdd", Source::Fg, Share::P04),
    ("attributeBackgroundColorEven", Source::Fg, Share::P10),
    // Gantt charts.
    ("sectionBkgColor", Source::Blue, Share::P10),
    ("altSectionBkgColor", Source::Bg, Share::Whole),
    ("sectionBkgColor2", Source::Magenta, Share::P10),
    ("excludeBkgColor", Source::Fg, Share::P05),
    ("gridColor", Source::Fg, Share::P20),
    ("taskBkgColor", Source::Blue, Share::P45),
    ("taskBorderColor", Source::Blue, Share::P80),
    ("taskTextColor", Source::Fg, Share::Whole),
    ("taskTextLightColor", Source::Fg, Share::Whole),
    ("taskTextDarkColor", Source::Fg, Share::Whole),
    ("taskTextOutsideColor", Source::Fg, Share::Whole),
    ("taskTextClickableColor", Source::Blue, Share::Whole),
    ("activeTaskBkgColor", Source::Blue, Share::P25),
    ("activeTaskBorderColor", Source::Blue, Share::P80),
    ("doneTaskBkgColor", Source::Fg, Share::P20),
    ("doneTaskBorderColor", Source::Fg, Share::P45),
    ("critBkgColor", Source::Red, Share::P45),
    ("critBorderColor", Source::Red, Share::P80),
    ("todayLineColor", Source::Red, Share::Whole),
    ("vertLineColor", Source::Cyan, Share::Whole),
    // Pie charts, journeys and git graphs.
    ("pieTitleTextColor", Source::Fg, Share::Whole),
    ("pieSectionTextColor", Source::Bg, Share::Whole),
    ("pieLegendTextColor", Source::Fg, Share::Whole),
    ("pieStrokeColor", Source::Bg, Share::Whole),
    ("pieOuterStrokeColor", Source::Fg, Share::P65),
    ("faceColor", Source::Yellow, Share::P70),
    ("commitLabelColor", Source::Fg, Share::Whole),
    ("commitLabelBackground", Source::Fg, Share::P08),
    ("tagLabelColor", Source::Fg, Share::Whole),
    ("tagLabelBackground", Source::Yellow, Share::P30),
    ("tagLabelBorder", Source::Yellow, Share::P70),
    // Quadrant charts.
    ("quadrant1Fill", Source::Blue, Share::P18),
    ("quadrant2Fill", Source::Magenta, Share::P14),
    ("quadrant3Fill", Source::Fg, Share::P06),
    ("quadrant4Fill", Source::Green, Share::P14),
    ("quadrant1TextFill", Source::Fg, Share::Whole),
    ("quadrant2TextFill", Source::Fg, Share::Whole),
    ("quadrant3TextFill", Source::Fg, Share::Whole),
    ("quadrant4TextFill", Source::Fg, Share::Whole),
    ("quadrantPointFill", Source::Blue, Share::Whole),
    ("quadrantPointTextFill", Source::Fg, Share::Whole),
    ("quadrantXAxisTextFill", Source::Fg, Share::Whole),
    ("quadrantYAxisTextFill", Source::Fg, Share::Whole),
    ("quadrantTitleFill", Source::Fg, Share::Whole),
    ("quadrantInternalBorderStrokeFill", Source::Fg, Share::P30),
    ("quadrantExternalBorderStrokeFill", Source::Fg, Share::P65),
    // Requirement and architecture diagrams.
    ("requirementBackground", Source::Blue, Share::P20),
    ("requirementBorderColor", Source::Blue, Share::P70),
    ("requirementTextColor", Source::Fg, Share::Whole),
    ("relationColor", Source::Fg, Share::P65),
    ("relationLabelBackground", Source::Bg, Share::Whole),
    ("relationLabelColor", Source::Fg, Share::Whole),
    ("archEdgeColor", Source::Fg, Share::P65),
    ("archEdgeArrowColor", Source::Fg, Share::P65),
    ("archGroupBorderColor", Source::Fg, Share::P30),
];

/// A reported ANSI color, or the one that stands in for it.
pub open spec fn ansi_color(palette: PaletteModel, dark: bool, i: int) -> Rgb {
    match palette.ansi[i] {
        Some(color) => color,
        None => {
            let (r, g, b) = if dark {
                DARK_ANSI@[i]
            } else {
                LIGHT_ANSI@[i]
            };
            Rgb(r, g, b)
        },
    }
}

/// The colors of a terminal that reported `fg` and `bg`.
pub open spec fn colors_of(palette: PaletteModel, fg: Rgb, bg: Rgb) -> Colors {
    Colors {
        fg,
        bg,
        red: ansi_color(palette, dark(bg), 0),
        green: ansi_color(palette, dark(bg), 1),
        yellow: ansi_color(palette, dark(bg), 2),
        blue: ansi_color(palette, dark(bg), 3),
        magenta: ansi_color(palette, dark(bg), 4),
        cyan: ansi_color(palette, dark(bg), 5),
    }
}

/// One of the colors.
pub open spec fn picked(colors: Colors, source: Source) -> Rgb {
    match source {
        Source::Fg => colors.fg,
        Source::Bg => colors.bg,
        Source::Red => colors.red,
        Source::Green => colors.green,
        Source::Yellow => colors.yellow,
        Source::Blue => colors.blue,
        Source::Magenta => colors.magenta,
        Source::Cyan => colors.cyan,
    }
}

/// A share of a color over the background, as text.
pub open spec fn tinted(colors: Colors, source: Source, share: Share) -> Seq<char> {
    hex_text(mixed(colors.bg, picked(colors, source), share_of(share) as int))
}

/// The first `n` of [`VARIABLES`].
pub open spec fn table_variables(colors: Colors, n: int) -> Map<Seq<char>, Model>
    decreases n,
{
    if n <= 0 {
        Map::empty()
    } else {
        let (name, source, share) = VARIABLES@[n - 1];
        table_variables(colors, n - 1).insert(name@, Model::Text(tinted(colors, source, share)))
    }
}

/// The categorical colors, in order, over and over.
pub open spec fn category(i: int) -> Source {
    if i % 6 == 0 {
        Source::Blue
    } else if i % 6 == 1 {
        Source::Magenta
    } else if i % 6 == 2 {
        Source::Green
    } else if i % 6 == 3 {
        Source::Yellow
    } else if i % 6 == 4 {
        Source::Cyan
    } else {
        Source::Red
    }
}

/// A name and a number.
pub open spec fn numbered(name: Seq<char>, i: int) -> Seq<char> {
    name + text::decimal(i as nat)
}

/// `vars` with the first `n` categories added.
pub open spec fn with_categories(
    vars: Map<Seq<char>, Model>,
    colors: Colors,
    n: int,
) -> Map<Seq<char>, Model>
    decreases n,
{
    if n <= 0 {
        vars
    } else {
        let i = n - 1;
        let soft = if i < 6 {
            Share::P35
        } else {
            Share::P35Weak
        };
        let strong = if i < 6 {
            Share::P75
        } else {
            Share::P75Weak
        };
        with_categories(vars, colors, i).insert(
            numbered("cScale"@, i),
            Model::Text(tinted(colors, category(i), soft)),
        ).insert(numbered("cScaleLabel"@, i), Model::Text(hex_text(colors.fg))).insert(
            numbered("pie"@, i + 1),
            Model::Text(tinted(colors, category(i), strong)),
        )
    }
}

/// `vars` with the first `n` branches added.
pub open spec fn with_branches(
    vars: Map<Seq<char>, Model>,
    colors: Colors,
    n: int,
) -> Map<Seq<char>, Model>
    decreases n,
{
    if n <= 0 {
        vars
    } else {
        let i = n - 1;
        with_branches(vars, colors, i).insert(
            numbered("git"@, i),
            Model::Text(tinted(colors, category(i), Share::P80)),
        ).insert(numbered("gitBranchLabel"@, i), Model::Text(hex_text(colors.bg))).insert(
            numbered("fillType"@, i),
            Model::Text(tinted(colors, category(i), Share::P30)),
        )
    }
}

/// The categorical colors, separated by commas.
pub open spec fn plot_palette(colors: Colors) -> Seq<char> {
    hex_text(colors.blue) + ", "@ + hex_text(colors.magenta) + ", "@ + hex_text(colors.green)
        + ", "@ + hex_text(colors.yellow) + ", "@ + hex_text(colors.cyan) + ", "@ + hex_text(
        colors.red,
    )
}

/// The colors of XY charts.
pub open spec fn chart_colors(colors: Colors) -> Map<Seq<char>, Model> {
    let paper = Model::Text(hex_text(colors.bg));
    let ink = Model::Text(hex_text(colors.fg));
    let line = Model::Text(tinted(colors, Source::Fg, Share::P65));
    Map::empty().insert("backgroundColor"@, paper).insert("titleColor"@, ink).insert(
        "xAxisLabelColor"@,
        ink,
    ).insert("xAxisTitleColor"@, ink).insert("xAxisTickColor"@, line).insert(
        "xAxisLineColor"@,
        line,
    ).insert("yAxisLabelColor"@, ink).insert("yAxisTitleColor"@, ink).insert(
        "yAxisTickColor"@,
        line,
    ).insert("yAxisLineColor"@, line).insert(
        "plotColorPalette"@,
        Model::Text(plot_palette(colors)),
    )
}

/// The colors of radar charts.
pub open spec fn radar_colors(colors: Colors) -> Map<Seq<char>, Model> {
    Map::empty().insert(
        "axisColor"@,
        Model::Text(tinted(colors, Source::Fg, Share::P65)),
    ).insert("graticuleColor"@, Model::Text(tinted(colors, Source::Fg, Share::P25)))
}

/// The colors of packet diagrams.
pub open spec fn packet_colors(colors: Colors) -> Map<Seq<char>, Model> {
    let ink = Model::Text(hex_text(colors.fg));
    Map::empty().insert("startByteColor"@, ink).insert("endByteColor"@, ink).insert(
        "labelColor"@,
        ink,
    ).insert("titleColor"@, ink).insert(
        "blockStrokeColor"@,
        Model::Text(tinted(colors, Source::Blue, Share::P70)),
    ).insert("blockFillColor"@, Model::Text(tinted(colors, Source::Blue, Share::P20)))
}

/// The theme variables.
pub open spec fn theme_variables(colors: Colors) -> Map<Seq<char>, Model> {
    let vars = table_variables(colors, 109).insert(
        "darkMode"@,
        Model::Bool(dark(colors.bg)),
    ).insert("fontFamily"@, Model::Text(fonts::FAMILY@));
    with_branches(with_categories(vars, colors, 12), colors, 8).insert(
        "xyChart"@,
        Model::Object(chart_colors(colors)),
    ).insert("radar"@, Model::Object(radar_colors(colors)))
}

/// The configuration of the `terminal` theme.
pub open spec fn theme_config(colors: Colors) -> Model {
    Model::Object(
        Map::empty().insert("theme"@, Model::Text("base"@)).insert(
            "themeVariables"@,
            Model::Object(theme_variables(colors)),
        ).insert("packet"@, Model::Object(packet_colors(colors))),
    )
}

/// The `terminal` theme of a palette, when the foreground and background are known.
pub open spec fn palette_theme(palette: PaletteModel) -> Option<Model> {
    match (palette.fg, palette.bg) {
        (Some(fg), Some(bg)) => Some(theme_config(colors_of(palette, fg, bg))),
        _ => None,
    }
}

fn choose_ansi(palette: &Palette, dark: bool, i: usize) -> (color: Rgb)
    requires
        i < 6,
    ensures
        color == ansi_color(palette@, dark, i as int),
{
    match palette.ansi[i] {
        Some(color) => color,
        None => {
            let (r, g, b): (u8, u8, u8) = if dark {
                DARK_ANSI[i]
            } else {
                LIGHT_ANSI[i]
            };
            Rgb(r, g, b)
        },
    }
}

impl Colors {
    fn pick(&self, source: Source) -> (color: Rgb)
        ensures
            color == picked(*self, source),
    {
        match source {
            Source::Fg => self.fg,
            Source::Bg => self.bg,
            Source::Red => self.red,
            Source::Green => self.green,
            Source::Yellow => self.yellow,
            Source::Blue => self.blue,
            Source::Magenta => self.magenta,
            Source::Cyan => self.cyan,
        }
    }

    fn tint(&self, source: Source, share: Share) -> (s: String)
        ensures
            s@ == tinted(*self, source, share),
    {
        self.bg.mix(self.pick(source), share.amount()).hex()
    }

    /// The categorical colors, separated by commas.
    fn plot(&self) -> (s: String)
        ensures
            s@ == plot_palette(*self),
    {
        let mut s = self.blue.hex();
        s.append(", ");
        s.append(self.magenta.hex().as_str());
        s.append(", ");
        s.append(self.green.hex().as_str());
        s.append(", ");
        s.append(self.yellow.hex().as_str());
        s.append(", ");
        s.append(self.cyan.hex().as_str());
        s.append(", ");
        s.append(self.red.hex().as_str());
        s
    }
}

fn category_source(i: usize) -> (source: Source)
    ensures
        source == category(i as int),
{
    if i % 6 == 0 {
        Source::Blue
    } else if i % 6 == 1 {
        Source::Magenta
    } else if i % 6 == 2 {
        Source::Green
    } else if i % 6 == 3 {
        Source::Yellow
    } else if i % 6 == 4 {
        Source::Cyan
    } else {
        Source::Red
    }
}

fn name_with_number(name: &str, i: usize) -> (s: String)
    ensures
        s@ == numbered(name@, i as int),
{
    let mut s = name.to_string();
    text::push_decimal(&mut s, i as u128);
    s
}

fn put_table(vars: &mut Vec<(String, Value)>, colors: &Colors)
    requires
        json::map_of(old(vars)@) == Map::<Seq<char>, Model>::empty(),
    ensures
        json::map_of(final(vars)@) == table_variables(*colors, 109),
{
    let mut i: usize = 0;
    while i < 109
        invariant
            i <= 109,
            json::map_of(vars@) == table_variables(*colors, i as int),
        decreases 109 - i,
    {
        let (name, source, share) = VARIABLES[i];
        json::put(vars, name, colors.tint(source, share).as_str());
        i += 1;
    }
}

fn put_categories(vars: &mut Vec<(String, Value)>, colors: &Colors)
    ensures
        json::map_of(final(vars)@) == with_categories(json::map_of(old(vars)@), *colors, 12),
{
    let ghost was = json::map_of(vars@);
    let ink = colors.fg.hex();
    let mut i: usize = 0;
    while i < 12
        invariant
            i <= 12,
            ink@ == hex_text(colors.fg),
            json::map_of(vars@) == with_categories(was, *colors, i as int),
        decreases 12 - i,
    {
        let source = category_source(i);
        let (soft, strong) = if i < 6 {
            (Share::P35, Share::P75)
        } else {
            (Share::P35Weak, Share::P75Weak)
        };
        json::put(
            vars,
            name_with_number("cScale", i).as_str(),
            colors.tint(source, soft).as_str(),
        );
        json::put(vars, name_with_number("cScaleLabel", i).as_str(), ink.as_str());
        json::put(
            vars,
            name_with_number("pie", i + 1).as_str(),
            colors.tint(source, strong).as_str(),
        );
        i += 1;
    }
}

fn put_branches(vars: &mut Vec<(String, Value)>, colors: &Colors)
    ensures
        json::map_of(final(vars)@) == with_branches(json::map_of(old(vars)@), *colors, 8),
{
    let ghost was = json::map_of(vars@);
    let paper = colors.bg.hex();
    let mut i: usize = 0;
    while i < 8
        invariant
            i <= 8,
            paper@ == hex_text(colors.bg),
            json::map_of(vars@) == with_branches(was, *colors, i as int),
        decreases 8 - i,
    {
        let source = category_source(i);
        json::put(
            vars,
            name_with_number("git", i).as_str(),
            colors.tint(source, Share::P80).as_str(),
        );
        json::put(vars, name_with_number("gitBranchLabel", i).as_str(), paper.as_str());
        json::put(
            vars,
            name_with_number("fillType", i).as_str(),
            colors.tint(source, Share::P30).as_str(),
        );
        i += 1;
    }
}

fn chart_value(colors: &Colors) -> (value: Value)
    ensures
        value@ == Model::Object(chart_colors(*colors)),
{
    let paper = colors.bg.hex();
    let ink = colors.fg.hex();
    let line = colors.tint(Source::Fg, Share::P65);
    let mut chart = json::no_entries();
    json::put(&mut chart, "backgroundColor", paper.as_str());
    json::put(&mut chart, "titleColor", ink.as_str());
    json::put(&mut chart, "xAxisLabelColor", ink.as_str());
    json::put(&mut chart, "xAxisTitleColor", ink.as_str());
    json::put(&mut chart, "xAxisTickColor", line.as_str());
    json::put(&mut chart, "xAxisLineColor", line.as_str());
    json::put(&mut chart, "yAxisLabelColor", ink.as_str());
    json::put(&mut chart, "yAxisTitleColor", ink.as_str());
    json::put(&mut chart, "yAxisTickColor", line.as_str());
    json::put(&mut chart, "yAxisLineColor", line.as_str());
    json::put(&mut chart, "plotColorPalette", colors.plot().as_str());
    json::object_value(chart)
}

fn radar_value(colors: &Colors) -> (value: Value)
    ensures
        value@ == Model::Object(radar_colors(*colors)),
{
    let mut radar = json::no_entries();
    json::put(&mut radar, "axisColor", colors.tint(Source::Fg, Share::P65).as_str());
    json::put(&mut radar, "graticuleColor", colors.tint(Source::Fg, Share::P25).as_str());
    json::object_value(radar)
}

fn packet_value(colors: &Colors) -> (value: Value)
    ensures
        value@ == Model::Object(packet_colors(*colors)),
{
    let ink = colors.fg.hex();
    let mut packet = json::no_entries();
    json::put(&mut packet, "startByteColor", ink.as_str());
    json::put(&mut packet, "endByteColor", ink.as_str());
    json::put(&mut packet, "labelColor", ink.as_str());
    json::put(&mut packet, "titleColor", ink.as_str());
    json::put(&mut packet, "blockStrokeColor", colors.tint(Source::Blue, Share::P70).as_str());
    json::put(&mut packet, "blockFillColor", colors.tint(Source::Blue, Share::P20).as_str());
    json::object_value(packet)
}

/// Mermaid configuration for the `terminal` theme: Mermaid's `base` theme with every color
/// derived from the terminal's own. `None` unless the terminal reported fg and bg.
///
/// Variables are set explicitly rather than left to the base theme, which falls back to its
/// light default colors for several of them (state backgrounds, gantt sections, pie text).
pub fn terminal_theme(palette: &Palette) -> (config: Option<Value>)
    ensures
        config is Some <==> palette_theme(palette@) is Some,
        config is Some ==> config.unwrap()@ == palette_theme(palette@).unwrap(),
{
    let (fg, bg) = match (palette.fg, palette.bg) {
        (Some(fg), Some(bg)) => (fg, bg),
        _ => return None,
    };
    let dark = bg.is_dark();
    let colors = Colors {
        fg,
        bg,
        red: choose_ansi(palette, dark, 0),
        green: choose_ansi(palette, dark, 1),
        yellow: choose_ansi(palette, dark, 2),
        blue: choose_ansi(palette, dark, 3),
        magenta: choose_ansi(palette, dark, 4),
        cyan: choose_ansi(palette, dark, 5),
    };
    let mut vars = json::no_entries();
    put_table(&mut vars, &colors);
    json::insert(&mut vars, "darkMode".to_string(), json::bool_value(dark));
    json::put(&mut vars, "fontFamily", fonts::FAMILY);
    // Categorical colors follow the terminal's ANSI palette.
    put_categories(&mut vars, &colors);
    put_branches(&mut vars, &colors);
    json::insert(&mut vars, "xyChart".to_string(), chart_value(&colors));
    json::insert(&mut vars, "radar".to_string(), radar_value(&colors));
    let mut config = json::no_entries();
    json::put(&mut config, "theme", "base");
    json::insert(&mut config, "themeVariables".to_string(), json::object_value(vars));
    // Packet diagrams take their colors from the diagram configuration, not theme variables.
    json::insert(&mut config, "packet".to_string(), packet_value(&colors));
    Some(json::object_value(config))
}

/// Whether every text in `vars`, apart from the font family, is a color.
pub open spec fn only_colors(vars: Map<Seq<char>, Model>) -> bool {
    forall|key: Seq<char>| #[trigger]
        vars.contains_key(key) ==> (vars[key] matches Model::Text(s) ==> key == "fontFamily"@ || (
        s.len() == 7 && s[0] == '#'))
}

proof fn lemma_table_colors(colors: Colors, n: int)
    ensures
        only_colors(table_variables(colors, n)),
    decreases n,
{
    if n > 0 {
        lemma_table_colors(colors, n - 1);
    }
}

proof fn lemma_category_colors(vars: Map<Seq<char>, Model>, colors: Colors, n: int)
    requires
        only_colors(vars),
    ensures
        only_colors(with_categories(vars, colors, n)),
    decreases n,
{
    if n > 0 {
        lemma_category_colors(vars, colors, n - 1);
    }
}

proof fn lemma_branch_colors(vars: Map<Seq<char>, Model>, colors: Colors, n: int)
    requires
        only_colors(vars),
    ensures
        only_colors(with_branches(vars, colors, n)),
    decreases n,
{
    if n > 0 {
        lemma_branch_colors(vars, colors, n - 1);
    }
}

/// Every text among the theme variables is a color as `#rrggbb`, apart from the font family.
pub proof fn every_color_is_a_hex_string(colors: Colors)
    ensures
        only_colors(theme_variables(colors)),
{
    lemma_table_colors(colors, 109);
    let vars = table_variables(colors, 109).insert(
        "darkMode"@,
        Model::Bool(dark(colors.bg)),
    ).insert("fontFamily"@, Model::Text(fonts::FAMILY@));
    lemma_category_colors(vars, colors, 12);
    lemma_branch_colors(with_categories(vars, colors, 12), colors, 8);
}

} // verus!

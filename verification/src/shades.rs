//! What the variables of the terminal theme show.

use vstd::prelude::*;

use crate::json::Model;
use crate::theme;
use crate::theme::{Colors, PaletteModel};
use crate::tints;

verus! {

// ---------------------------------------------------------------------------------------------
// The variables have names of their own.

/// A number that tells the names apart.
spec fn code(s: Seq<char>) -> int {
    s.len() + 128 * (s[2] as int) + 16_384 * (s[4] as int) + 2_097_152 * (if s.len() > 8 {
        s[8] as int
    } else {
        0
    })
}

/// Whether a name cannot be taken for one of a numbered variable, or of one outside the table.
spec fn plain(s: Seq<char>) -> bool {
    &&& s.len() >= 7
    &&& !(s[0] == 'c' && s[1] == 'S')
    &&& !(s[0] == 'p' && '0' <= s[3] <= '9')
    &&& !(s[0] == 'g' && s[1] == 'i')
    &&& !(s[0] == 'f' && (s[1] == 'i' || s[1] == 'o'))
    &&& s[0] != 'x'
    &&& !(s[0] == 'r' && s[1] == 'a')
    &&& !(s[0] == 'd' && s[1] == 'a')
}

/// The row of a variable, found by its name.
spec fn row(code: int) -> int {
    if code == 232_386_954 {
        0
    } else if code == 240_188_425 {
        1
    } else if code == 234_453_514 {
        2
    } else if code == 240_187_145 {
        3
    } else if code == 211_679_502 {
        4
    } else if code == 234_386_572 {
        5
    } else if code == 234_386_578 {
        6
    } else if code == 213_415_056 {
        7
    } else if code == 255_570_318 {
        8
    } else if code == 255_570_324 {
        9
    } else if code == 255_570_322 {
        10
    } else if code == 142_244_109 {
        11
    } else if code == 140_146_963 {
        12
    } else if code == 177_895_697 {
        13
    } else if code == 1_094_791 {
        14
    } else if code == 212_906_506 {
        15
    } else if code == 141_898_253 {
        16
    } else if code == 226_310_794 {
        17
    } else if code == 234_699_405 {
        18
    } else if code == 227_750_803 {
        19
    } else if code == 222_130_960 {
        20
    } else if code == 142_391_565 {
        21
    } else if code == 245_152_014 {
        22
    } else if code == 233_880_076 {
        23
    } else if code == 212_908_559 {
        24
    } else if code == 141_900_301 {
        25
    } else if code == 1_882_632 {
        26
    } else if code == 211_597_835 {
        27
    } else if code == 245_152_270 {
        28
    } else if code == 213_694_990 {
        29
    } else if code == 228_094_859 {
        30
    } else if code == 253_260_687 {
        31
    } else if code == 140_194_064 {
        32
    } else if code == 140_194_067 {
        33
    } else if code == 245_051_662 {
        34
    } else if code == 141_899_661 {
        35
    } else if code == 234_732_050 {
        36
    } else if code == 234_732_053 {
        37
    } else if code == 165_247_123 {
        38
    } else if code == 245_166_217 {
        39
    } else if code == 1_667_208 {
        40
    } else if code == 211_382_411 {
        41
    } else if code == 213_479_567 {
        42
    } else if code == 226_177_300 {
        43
    } else if code == 213_644_947 {
        44
    } else if code == 213_644_952 {
        45
    } else if code == 213_644_943 {
        46
    } else if code == 240_679_437 {
        47
    } else if code == 140_293_906 {
        48
    } else if code == 245_002_897 {
        49
    } else if code == 234_680_463 {
        50
    } else if code == 234_680_468 {
        51
    } else if code == 213_547_547 {
        52
    } else if code == 213_547_548 {
        53
    } else if code == 226_128_271 {
        54
    } else if code == 234_453_522 {
        55
    } else if code == 226_128_272 {
        56
    } else if code == 226_324_879 {
        57
    } else if code == 240_186_505 {
        58
    } else if code == 233_879_948 {
        59
    } else if code == 212_908_431 {
        60
    } else if code == 141_900_173 {
        61
    } else if code == 160_774_546 {
        62
    } else if code == 143_997_329 {
        63
    } else if code == 167_066_004 {
        64
    } else if code == 141_900_182 {
        65
    } else if code == 243_120_658 {
        66
    } else if code == 243_120_661 {
        67
    } else if code == 139_802_384 {
        68
    } else if code == 139_802_387 {
        69
    } else if code == 233_878_668 {
        70
    } else if code == 212_907_151 {
        71
    } else if code == 213_807_630 {
        72
    } else if code == 141_768_973 {
        73
    } else if code == 177_894_033 {
        74
    } else if code == 234_451_603 {
        75
    } else if code == 211_382_930 {
        76
    } else if code == 213_725_838 {
        77
    } else if code == 175_993_491 {
        78
    } else if code == 240_185_737 {
        79
    } else if code == 207_255_184 {
        80
    } else if code == 207_255_189 {
        81
    } else if code == 142_111_629 {
        82
    } else if code == 140_014_482 {
        83
    } else if code == 140_014_478 {
        84
    } else if code == 104_640_653 {
        85
    } else if code == 106_737_805 {
        86
    } else if code == 108_834_957 {
        87
    } else if code == 110_932_109 {
        88
    } else if code == 104_640_657 {
        89
    } else if code == 106_737_809 {
        90
    } else if code == 108_834_961 {
        91
    } else if code == 110_932_113 {
        92
    } else if code == 169_652_369 {
        93
    } else if code == 169_652_373 {
        94
    } else if code == 186_429_589 {
        95
    } else if code == 188_526_741 {
        96
    } else if code == 178_040_977 {
        97
    } else if code == 154_972_320 {
        98
    } else if code == 146_583_712 {
        99
    } else if code == 213_547_157 {
        100
    } else if code == 213_547_158 {
        101
    } else if code == 213_547_156 {
        102
    } else if code == 142_423_565 {
        103
    } else if code == 161_297_943 {
        104
    } else if code == 161_297_938 {
        105
    } else if code == 141_652_365 {
        106
    } else if code == 137_458_066 {
        107
    } else if code == 236_056_980 {
        108
    } else {
        -1
    }
}

proof fn lemma_rows_0(k: int)
    requires
        0 <= k < 14,
    ensures
        plain(theme::VARIABLES@[k].0@),
        row(code(theme::VARIABLES@[k].0@)) == k,
{
    if k == 0 {
        reveal_strlit("background");
        assert(code("background"@) == 232_386_954);
    }
    if k == 1 {
        reveal_strlit("textColor");
        assert(code("textColor"@) == 240_188_425);
    }
    if k == 2 {
        reveal_strlit("titleColor");
        assert(code("titleColor"@) == 234_453_514);
    }
    if k == 3 {
        reveal_strlit("lineColor");
        assert(code("lineColor"@) == 240_187_145);
    }
    if k == 4 {
        reveal_strlit("arrowheadColor");
        assert(code("arrowheadColor"@) == 211_679_502);
    }
    if k == 5 {
        reveal_strlit("primaryColor");
        assert(code("primaryColor"@) == 234_386_572);
    }
    if k == 6 {
        reveal_strlit("primaryBorderColor");
        assert(code("primaryBorderColor"@) == 234_386_578);
    }
    if k == 7 {
        reveal_strlit("primaryTextColor");
        assert(code("primaryTextColor"@) == 213_415_056);
    }
    if k == 8 {
        reveal_strlit("secondaryColor");
        assert(code("secondaryColor"@) == 255_570_318);
    }
    if k == 9 {
        reveal_strlit("secondaryBorderColor");
        assert(code("secondaryBorderColor"@) == 255_570_324);
    }
    if k == 10 {
        reveal_strlit("secondaryTextColor");
        assert(code("secondaryTextColor"@) == 255_570_322);
    }
    if k == 11 {
        reveal_strlit("tertiaryColor");
        assert(code("tertiaryColor"@) == 142_244_109);
    }
    if k == 12 {
        reveal_strlit("tertiaryBorderColor");
        assert(code("tertiaryBorderColor"@) == 140_146_963);
    }
    if k == 13 {
        reveal_strlit("tertiaryTextColor");
        assert(code("tertiaryTextColor"@) == 177_895_697);
    }
}

proof fn lemma_rows_1(k: int)
    requires
        14 <= k < 28,
    ensures
        plain(theme::VARIABLES@[k].0@),
        row(code(theme::VARIABLES@[k].0@)) == k,
{
    if k == 14 {
        reveal_strlit("mainBkg");
        assert(code("mainBkg"@) == 1_094_791);
    }
    if k == 15 {
        reveal_strlit("nodeBorder");
        assert(code("nodeBorder"@) == 212_906_506);
    }
    if k == 16 {
        reveal_strlit("nodeTextColor");
        assert(code("nodeTextColor"@) == 141_898_253);
    }
    if k == 17 {
        reveal_strlit("clusterBkg");
        assert(code("clusterBkg"@) == 226_310_794);
    }
    if k == 18 {
        reveal_strlit("clusterBorder");
        assert(code("clusterBorder"@) == 234_699_405);
    }
    if k == 19 {
        reveal_strlit("edgeLabelBackground");
        assert(code("edgeLabelBackground"@) == 227_750_803);
    }
    if k == 20 {
        reveal_strlit("defaultLinkColor");
        assert(code("defaultLinkColor"@) == 222_130_960);
    }
    if k == 21 {
        reveal_strlit("errorBkgColor");
        assert(code("errorBkgColor"@) == 142_391_565);
    }
    if k == 22 {
        reveal_strlit("errorTextColor");
        assert(code("errorTextColor"@) == 245_152_014);
    }
    if k == 23 {
        reveal_strlit("noteBkgColor");
        assert(code("noteBkgColor"@) == 233_880_076);
    }
    if k == 24 {
        reveal_strlit("noteBorderColor");
        assert(code("noteBorderColor"@) == 212_908_559);
    }
    if k == 25 {
        reveal_strlit("noteTextColor");
        assert(code("noteTextColor"@) == 141_900_301);
    }
    if k == 26 {
        reveal_strlit("actorBkg");
        assert(code("actorBkg"@) == 1_882_632);
    }
    if k == 27 {
        reveal_strlit("actorBorder");
        assert(code("actorBorder"@) == 211_597_835);
    }
}

proof fn lemma_rows_2(k: int)
    requires
        28 <= k < 42,
    ensures
        plain(theme::VARIABLES@[k].0@),
        row(code(theme::VARIABLES@[k].0@)) == k,
{
    if k == 28 {
        reveal_strlit("actorTextColor");
        assert(code("actorTextColor"@) == 245_152_270);
    }
    if k == 29 {
        reveal_strlit("actorLineColor");
        assert(code("actorLineColor"@) == 213_694_990);
    }
    if k == 30 {
        reveal_strlit("signalColor");
        assert(code("signalColor"@) == 228_094_859);
    }
    if k == 31 {
        reveal_strlit("signalTextColor");
        assert(code("signalTextColor"@) == 253_260_687);
    }
    if k == 32 {
        reveal_strlit("labelBoxBkgColor");
        assert(code("labelBoxBkgColor"@) == 140_194_064);
    }
    if k == 33 {
        reveal_strlit("labelBoxBorderColor");
        assert(code("labelBoxBorderColor"@) == 140_194_067);
    }
    if k == 34 {
        reveal_strlit("labelTextColor");
        assert(code("labelTextColor"@) == 245_051_662);
    }
    if k == 35 {
        reveal_strlit("loopTextColor");
        assert(code("loopTextColor"@) == 141_899_661);
    }
    if k == 36 {
        reveal_strlit("activationBkgColor");
        assert(code("activationBkgColor"@) == 234_732_050);
    }
    if k == 37 {
        reveal_strlit("activationBorderColor");
        assert(code("activationBorderColor"@) == 234_732_053);
    }
    if k == 38 {
        reveal_strlit("sequenceNumberColor");
        assert(code("sequenceNumberColor"@) == 165_247_123);
    }
    if k == 39 {
        reveal_strlit("classText");
        assert(code("classText"@) == 245_166_217);
    }
    if k == 40 {
        reveal_strlit("stateBkg");
        assert(code("stateBkg"@) == 1_667_208);
    }
    if k == 41 {
        reveal_strlit("stateBorder");
        assert(code("stateBorder"@) == 211_382_411);
    }
}

proof fn lemma_rows_3(k: int)
    requires
        42 <= k < 56,
    ensures
        plain(theme::VARIABLES@[k].0@),
        row(code(theme::VARIABLES@[k].0@)) == k,
{
    if k == 42 {
        reveal_strlit("stateLabelColor");
        assert(code("stateLabelColor"@) == 213_479_567);
    }
    if k == 43 {
        reveal_strlit("labelBackgroundColor");
        assert(code("labelBackgroundColor"@) == 226_177_300);
    }
    if k == 44 {
        reveal_strlit("compositeBackground");
        assert(code("compositeBackground"@) == 213_644_947);
    }
    if k == 45 {
        reveal_strlit("compositeTitleBackground");
        assert(code("compositeTitleBackground"@) == 213_644_952);
    }
    if k == 46 {
        reveal_strlit("compositeBorder");
        assert(code("compositeBorder"@) == 213_644_943);
    }
    if k == 47 {
        reveal_strlit("altBackground");
        assert(code("altBackground"@) == 240_679_437);
    }
    if k == 48 {
        reveal_strlit("innerEndBackground");
        assert(code("innerEndBackground"@) == 140_293_906);
    }
    if k == 49 {
        reveal_strlit("specialStateColor");
        assert(code("specialStateColor"@) == 245_002_897);
    }
    if k == 50 {
        reveal_strlit("transitionColor");
        assert(code("transitionColor"@) == 234_680_463);
    }
    if k == 51 {
        reveal_strlit("transitionLabelColor");
        assert(code("transitionLabelColor"@) == 234_680_468);
    }
    if k == 52 {
        reveal_strlit("attributeBackgroundColorOdd");
        assert(code("attributeBackgroundColorOdd"@) == 213_547_547);
    }
    if k == 53 {
        reveal_strlit("attributeBackgroundColorEven");
        assert(code("attributeBackgroundColorEven"@) == 213_547_548);
    }
    if k == 54 {
        reveal_strlit("sectionBkgColor");
        assert(code("sectionBkgColor"@) == 226_128_271);
    }
    if k == 55 {
        reveal_strlit("altSectionBkgColor");
        assert(code("altSectionBkgColor"@) == 234_453_522);
    }
}

proof fn lemma_rows_4(k: int)
    requires
        56 <= k < 70,
    ensures
        plain(theme::VARIABLES@[k].0@),
        row(code(theme::VARIABLES@[k].0@)) == k,
{
    if k == 56 {
        reveal_strlit("sectionBkgColor2");
        assert(code("sectionBkgColor2"@) == 226_128_272);
    }
    if k == 57 {
        reveal_strlit("excludeBkgColor");
        assert(code("excludeBkgColor"@) == 226_324_879);
    }
    if k == 58 {
        reveal_strlit("gridColor");
        assert(code("gridColor"@) == 240_186_505);
    }
    if k == 59 {
        reveal_strlit("taskBkgColor");
        assert(code("taskBkgColor"@) == 233_879_948);
    }
    if k == 60 {
        reveal_strlit("taskBorderColor");
        assert(code("taskBorderColor"@) == 212_908_431);
    }
    if k == 61 {
        reveal_strlit("taskTextColor");
        assert(code("taskTextColor"@) == 141_900_173);
    }
    if k == 62 {
        reveal_strlit("taskTextLightColor");
        assert(code("taskTextLightColor"@) == 160_774_546);
    }
    if k == 63 {
        reveal_strlit("taskTextDarkColor");
        assert(code("taskTextDarkColor"@) == 143_997_329);
    }
    if k == 64 {
        reveal_strlit("taskTextOutsideColor");
        assert(code("taskTextOutsideColor"@) == 167_066_004);
    }
    if k == 65 {
        reveal_strlit("taskTextClickableColor");
        assert(code("taskTextClickableColor"@) == 141_900_182);
    }
    if k == 66 {
        reveal_strlit("activeTaskBkgColor");
        assert(code("activeTaskBkgColor"@) == 243_120_658);
    }
    if k == 67 {
        reveal_strlit("activeTaskBorderColor");
        assert(code("activeTaskBorderColor"@) == 243_120_661);
    }
    if k == 68 {
        reveal_strlit("doneTaskBkgColor");
        assert(code("doneTaskBkgColor"@) == 139_802_384);
    }
    if k == 69 {
        reveal_strlit("doneTaskBorderColor");
        assert(code("doneTaskBorderColor"@) == 139_802_387);
    }
}

proof fn lemma_rows_5(k: int)
    requires
        70 <= k < 84,
    ensures
        plain(theme::VARIABLES@[k].0@),
        row(code(theme::VARIABLES@[k].0@)) == k,
{
    if k == 70 {
        reveal_strlit("critBkgColor");
        assert(code("critBkgColor"@) == 233_878_668);
    }
    if k == 71 {
        reveal_strlit("critBorderColor");
        assert(code("critBorderColor"@) == 212_907_151);
    }
    if k == 72 {
        reveal_strlit("todayLineColor");
        assert(code("todayLineColor"@) == 213_807_630);
    }
    if k == 73 {
        reveal_strlit("vertLineColor");
        assert(code("vertLineColor"@) == 141_768_973);
    }
    if k == 74 {
        reveal_strlit("pieTitleTextColor");
        assert(code("pieTitleTextColor"@) == 177_894_033);
    }
    if k == 75 {
        reveal_strlit("pieSectionTextColor");
        assert(code("pieSectionTextColor"@) == 234_451_603);
    }
    if k == 76 {
        reveal_strlit("pieLegendTextColor");
        assert(code("pieLegendTextColor"@) == 211_382_930);
    }
    if k == 77 {
        reveal_strlit("pieStrokeColor");
        assert(code("pieStrokeColor"@) == 213_725_838);
    }
    if k == 78 {
        reveal_strlit("pieOuterStrokeColor");
        assert(code("pieOuterStrokeColor"@) == 175_993_491);
    }
    if k == 79 {
        reveal_strlit("faceColor");
        assert(code("faceColor"@) == 240_185_737);
    }
    if k == 80 {
        reveal_strlit("commitLabelColor");
        assert(code("commitLabelColor"@) == 207_255_184);
    }
    if k == 81 {
        reveal_strlit("commitLabelBackground");
        assert(code("commitLabelBackground"@) == 207_255_189);
    }
    if k == 82 {
        reveal_strlit("tagLabelColor");
        assert(code("tagLabelColor"@) == 142_111_629);
    }
    if k == 83 {
        reveal_strlit("tagLabelBackground");
        assert(code("tagLabelBackground"@) == 140_014_482);
    }
}

proof fn lemma_rows_6(k: int)
    requires
        84 <= k < 98,
    ensures
        plain(theme::VARIABLES@[k].0@),
        row(code(theme::VARIABLES@[k].0@)) == k,
{
    if k == 84 {
        reveal_strlit("tagLabelBorder");
        assert(code("tagLabelBorder"@) == 140_014_478);
    }
    if k == 85 {
        reveal_strlit("quadrant1Fill");
        assert(code("quadrant1Fill"@) == 104_640_653);
    }
    if k == 86 {
        reveal_strlit("quadrant2Fill");
        assert(code("quadrant2Fill"@) == 106_737_805);
    }
    if k == 87 {
        reveal_strlit("quadrant3Fill");
        assert(code("quadrant3Fill"@) == 108_834_957);
    }
    if k == 88 {
        reveal_strlit("quadrant4Fill");
        assert(code("quadrant4Fill"@) == 110_932_109);
    }
    if k == 89 {
        reveal_strlit("quadrant1TextFill");
        assert(code("quadrant1TextFill"@) == 104_640_657);
    }
    if k == 90 {
        reveal_strlit("quadrant2TextFill");
        assert(code("quadrant2TextFill"@) == 106_737_809);
    }
    if k == 91 {
        reveal_strlit("quadrant3TextFill");
        assert(code("quadrant3TextFill"@) == 108_834_961);
    }
    if k == 92 {
        reveal_strlit("quadrant4TextFill");
        assert(code("quadrant4TextFill"@) == 110_932_113);
    }
    if k == 93 {
        reveal_strlit("quadrantPointFill");
        assert(code("quadrantPointFill"@) == 169_652_369);
    }
    if k == 94 {
        reveal_strlit("quadrantPointTextFill");
        assert(code("quadrantPointTextFill"@) == 169_652_373);
    }
    if k == 95 {
        reveal_strlit("quadrantXAxisTextFill");
        assert(code("quadrantXAxisTextFill"@) == 186_429_589);
    }
    if k == 96 {
        reveal_strlit("quadrantYAxisTextFill");
        assert(code("quadrantYAxisTextFill"@) == 188_526_741);
    }
    if k == 97 {
        reveal_strlit("quadrantTitleFill");
        assert(code("quadrantTitleFill"@) == 178_040_977);
    }
}

proof fn lemma_rows_7(k: int)
    requires
        98 <= k < 109,
    ensures
        plain(theme::VARIABLES@[k].0@),
        row(code(theme::VARIABLES@[k].0@)) == k,
{
    if k == 98 {
        reveal_strlit("quadrantInternalBorderStrokeFill");
        assert(code("quadrantInternalBorderStrokeFill"@) == 154_972_320);
    }
    if k == 99 {
        reveal_strlit("quadrantExternalBorderStrokeFill");
        assert(code("quadrantExternalBorderStrokeFill"@) == 146_583_712);
    }
    if k == 100 {
        reveal_strlit("requirementBackground");
        assert(code("requirementBackground"@) == 213_547_157);
    }
    if k == 101 {
        reveal_strlit("requirementBorderColor");
        assert(code("requirementBorderColor"@) == 213_547_158);
    }
    if k == 102 {
        reveal_strlit("requirementTextColor");
        assert(code("requirementTextColor"@) == 213_547_156);
    }
    if k == 103 {
        reveal_strlit("relationColor");
        assert(code("relationColor"@) == 142_423_565);
    }
    if k == 104 {
        reveal_strlit("relationLabelBackground");
        assert(code("relationLabelBackground"@) == 161_297_943);
    }
    if k == 105 {
        reveal_strlit("relationLabelColor");
        assert(code("relationLabelColor"@) == 161_297_938);
    }
    if k == 106 {
        reveal_strlit("archEdgeColor");
        assert(code("archEdgeColor"@) == 141_652_365);
    }
    if k == 107 {
        reveal_strlit("archEdgeArrowColor");
        assert(code("archEdgeArrowColor"@) == 137_458_066);
    }
    if k == 108 {
        reveal_strlit("archGroupBorderColor");
        assert(code("archGroupBorderColor"@) == 236_056_980);
    }
}

proof fn lemma_row(k: int)
    requires
        0 <= k < 109,
    ensures
        plain(theme::VARIABLES@[k].0@),
        row(code(theme::VARIABLES@[k].0@)) == k,
{
    if k < 14 {
        lemma_rows_0(k);
    } else if k < 28 {
        lemma_rows_1(k);
    } else if k < 42 {
        lemma_rows_2(k);
    } else if k < 56 {
        lemma_rows_3(k);
    } else if k < 70 {
        lemma_rows_4(k);
    } else if k < 84 {
        lemma_rows_5(k);
    } else if k < 98 {
        lemma_rows_6(k);
    } else if k < 109 {
        lemma_rows_7(k);
    }
}

/// A row of the table, among the first so many.
proof fn lemma_table(colors: Colors, n: int, k: int)
    requires
        0 <= k < n <= 109,
    ensures
        ({
            let (name, source, share) = theme::VARIABLES@[k];
            let vars = theme::table_variables(colors, n);
            &&& vars.contains_key(name@)
            &&& vars[name@] == Model::Text(theme::tinted(colors, source, share))
        }),
    decreases n,
{
    if k < n - 1 {
        lemma_table(colors, n - 1, k);
        lemma_row(k);
        lemma_row(n - 1);
    }
}

/// A variable of the table shows its share of its color over the background.
proof fn lemma_shown(palette: PaletteModel, k: int)
    requires
        palette.fg is Some && palette.bg is Some,
        0 <= k < 109,
    ensures
        ({
            let (name, source, share) = theme::VARIABLES@[k];
            let colors = tints::reported(palette);
            tints::variable(palette, name@) == tints::over(
                colors.bg,
                theme::picked(colors, source),
                theme::share_of(share) as int,
            )
        }),
{
    let (name, source, share) = theme::VARIABLES@[k];
    let colors = tints::reported(palette);
    lemma_table(colors, 109, k);
    lemma_row(k);
    tints::lemma_plain(palette, name@, theme::table_variables(colors, 109)[name@]);
    tints::lemma_over(colors, source, share);
}

/// Text has the terminal's foreground color.
pub proof fn text_is_drawn_in_the_foreground(palette: PaletteModel)
    requires
        palette.fg is Some && palette.bg is Some,
    ensures
        ({
            let colors = tints::reported(palette);
            &&& tints::variable(palette, "textColor"@) == tints::over(
                colors.bg,
                colors.fg,
                268_435_456,
            )
            &&& tints::variable(palette, "titleColor"@) == tints::over(
                colors.bg,
                colors.fg,
                268_435_456,
            )
            &&& tints::variable(palette, "primaryTextColor"@) == tints::over(
                colors.bg,
                colors.fg,
                268_435_456,
            )
            &&& tints::variable(palette, "secondaryTextColor"@) == tints::over(
                colors.bg,
                colors.fg,
                268_435_456,
            )
            &&& tints::variable(palette, "tertiaryTextColor"@) == tints::over(
                colors.bg,
                colors.fg,
                268_435_456,
            )
            &&& tints::variable(palette, "nodeTextColor"@) == tints::over(
                colors.bg,
                colors.fg,
                268_435_456,
            )
            &&& tints::variable(palette, "errorTextColor"@) == tints::over(
                colors.bg,
                colors.fg,
                268_435_456,
            )
            &&& tints::variable(palette, "noteTextColor"@) == tints::over(
                colors.bg,
                colors.fg,
                268_435_456,
            )
            &&& tints::variable(palette, "actorTextColor"@) == tints::over(
                colors.bg,
                colors.fg,
                268_435_456,
            )
            &&& tints::variable(palette, "signalColor"@) == tints::over(
                colors.bg,
                colors.fg,
                268_435_456,
            )
            &&& tints::variable(palette, "signalTextColor"@) == tints::over(
                colors.bg,
                colors.fg,
                268_435_456,
            )
            &&& tints::variable(palette, "labelTextColor"@) == tints::over(
                colors.bg,
                colors.fg,
                268_435_456,
            )
            &&& tints::variable(palette, "loopTextColor"@) == tints::over(
                colors.bg,
                colors.fg,
                268_435_456,
            )
            &&& tints::variable(palette, "classText"@) == tints::over(
                colors.bg,
                colors.fg,
                268_435_456,
            )
            &&& tints::variable(palette, "stateLabelColor"@) == tints::over(
                colors.bg,
                colors.fg,
                268_435_456,
            )
            &&& tints::variable(palette, "transitionLabelColor"@) == tints::over(
                colors.bg,
                colors.fg,
                268_435_456,
            )
            &&& tints::variable(palette, "taskTextColor"@) == tints::over(
                colors.bg,
                colors.fg,
                268_435_456,
            )
            &&& tints::variable(palette, "taskTextLightColor"@) == tints::over(
                colors.bg,
                colors.fg,
                268_435_456,
            )
            &&& tints::variable(palette, "taskTextDarkColor"@) == tints::over(
                colors.bg,
                colors.fg,
                268_435_456,
            )
            &&& tints::variable(palette, "taskTextOutsideColor"@) == tints::over(
                colors.bg,
                colors.fg,
                268_435_456,
            )
            &&& tints::variable(palette, "pieTitleTextColor"@) == tints::over(
                colors.bg,
                colors.fg,
                268_435_456,
            )
            &&& tints::variable(palette, "pieLegendTextColor"@) == tints::over(
                colors.bg,
                colors.fg,
                268_435_456,
            )
            &&& tints::variable(palette, "commitLabelColor"@) == tints::over(
                colors.bg,
                colors.fg,
                268_435_456,
            )
            &&& tints::variable(palette, "tagLabelColor"@) == tints::over(
                colors.bg,
                colors.fg,
                268_435_456,
            )
            &&& tints::variable(palette, "quadrant1TextFill"@) == tints::over(
                colors.bg,
                colors.fg,
                268_435_456,
            )
            &&& tints::variable(palette, "quadrant2TextFill"@) == tints::over(
                colors.bg,
                colors.fg,
                268_435_456,
            )
            &&& tints::variable(palette, "quadrant3TextFill"@) == tints::over(
                colors.bg,
                colors.fg,
                268_435_456,
            )
            &&& tints::variable(palette, "quadrant4TextFill"@) == tints::over(
                colors.bg,
                colors.fg,
                268_435_456,
            )
            &&& tints::variable(palette, "quadrantPointTextFill"@) == tints::over(
                colors.bg,
                colors.fg,
                268_435_456,
            )
            &&& tints::variable(palette, "quadrantXAxisTextFill"@) == tints::over(
                colors.bg,
                colors.fg,
                268_435_456,
            )
            &&& tints::variable(palette, "quadrantYAxisTextFill"@) == tints::over(
                colors.bg,
                colors.fg,
                268_435_456,
            )
            &&& tints::variable(palette, "quadrantTitleFill"@) == tints::over(
                colors.bg,
                colors.fg,
                268_435_456,
            )
            &&& tints::variable(palette, "requirementTextColor"@) == tints::over(
                colors.bg,
                colors.fg,
                268_435_456,
            )
            &&& tints::variable(palette, "relationLabelColor"@) == tints::over(
                colors.bg,
                colors.fg,
                268_435_456,
            )
        }),
{
    lemma_shown(palette, 1);
    lemma_shown(palette, 2);
    lemma_shown(palette, 7);
    lemma_shown(palette, 10);
    lemma_shown(palette, 13);
    lemma_shown(palette, 16);
    lemma_shown(palette, 22);
    lemma_shown(palette, 25);
    lemma_shown(palette, 28);
    lemma_shown(palette, 30);
    lemma_shown(palette, 31);
    lemma_shown(palette, 34);
    lemma_shown(palette, 35);
    lemma_shown(palette, 39);
    lemma_shown(palette, 42);
    lemma_shown(palette, 51);
    lemma_shown(palette, 61);
    lemma_shown(palette, 62);
    lemma_shown(palette, 63);
    lemma_shown(palette, 64);
    lemma_shown(palette, 74);
    lemma_shown(palette, 76);
    lemma_shown(palette, 80);
    lemma_shown(palette, 82);
    lemma_shown(palette, 89);
    lemma_shown(palette, 90);
    lemma_shown(palette, 91);
    lemma_shown(palette, 92);
    lemma_shown(palette, 94);
    lemma_shown(palette, 95);
    lemma_shown(palette, 96);
    lemma_shown(palette, 97);
    lemma_shown(palette, 102);
    lemma_shown(palette, 105);
}

/// What lies behind a diagram, and text on full color, has the terminal's background color.
pub proof fn paper_is_the_background(palette: PaletteModel)
    requires
        palette.fg is Some && palette.bg is Some,
    ensures
        ({
            let colors = tints::reported(palette);
            &&& tints::variable(palette, "background"@) == tints::over(
                colors.bg,
                colors.bg,
                268_435_456,
            )
            &&& tints::variable(palette, "edgeLabelBackground"@) == tints::over(
                colors.bg,
                colors.bg,
                268_435_456,
            )
            &&& tints::variable(palette, "sequenceNumberColor"@) == tints::over(
                colors.bg,
                colors.bg,
                268_435_456,
            )
            &&& tints::variable(palette, "compositeBackground"@) == tints::over(
                colors.bg,
                colors.bg,
                268_435_456,
            )
            &&& tints::variable(palette, "altSectionBkgColor"@) == tints::over(
                colors.bg,
                colors.bg,
                268_435_456,
            )
            &&& tints::variable(palette, "pieSectionTextColor"@) == tints::over(
                colors.bg,
                colors.bg,
                268_435_456,
            )
            &&& tints::variable(palette, "pieStrokeColor"@) == tints::over(
                colors.bg,
                colors.bg,
                268_435_456,
            )
            &&& tints::variable(palette, "relationLabelBackground"@) == tints::over(
                colors.bg,
                colors.bg,
                268_435_456,
            )
        }),
{
    lemma_shown(palette, 0);
    lemma_shown(palette, 19);
    lemma_shown(palette, 38);
    lemma_shown(palette, 44);
    lemma_shown(palette, 55);
    lemma_shown(palette, 75);
    lemma_shown(palette, 77);
    lemma_shown(palette, 104);
}

/// Lines, frames and quiet areas are shades of the foreground over the background.
pub proof fn lines_are_shades_of_the_foreground(palette: PaletteModel)
    requires
        palette.fg is Some && palette.bg is Some,
    ensures
        ({
            let colors = tints::reported(palette);
            &&& tints::variable(palette, "lineColor"@) == tints::over(
                colors.bg,
                colors.fg,
                174_483_040,
            )
            &&& tints::variable(palette, "arrowheadColor"@) == tints::over(
                colors.bg,
                colors.fg,
                174_483_040,
            )
            &&& tints::variable(palette, "defaultLinkColor"@) == tints::over(
                colors.bg,
                colors.fg,
                174_483_040,
            )
            &&& tints::variable(palette, "activationBorderColor"@) == tints::over(
                colors.bg,
                colors.fg,
                174_483_040,
            )
            &&& tints::variable(palette, "specialStateColor"@) == tints::over(
                colors.bg,
                colors.fg,
                174_483_040,
            )
            &&& tints::variable(palette, "transitionColor"@) == tints::over(
                colors.bg,
                colors.fg,
                174_483_040,
            )
            &&& tints::variable(palette, "pieOuterStrokeColor"@) == tints::over(
                colors.bg,
                colors.fg,
                174_483_040,
            )
            &&& tints::variable(palette, "quadrantExternalBorderStrokeFill"@) == tints::over(
                colors.bg,
                colors.fg,
                174_483_040,
            )
            &&& tints::variable(palette, "relationColor"@) == tints::over(
                colors.bg,
                colors.fg,
                174_483_040,
            )
            &&& tints::variable(palette, "archEdgeColor"@) == tints::over(
                colors.bg,
                colors.fg,
                174_483_040,
            )
            &&& tints::variable(palette, "archEdgeArrowColor"@) == tints::over(
                colors.bg,
                colors.fg,
                174_483_040,
            )
            &&& tints::variable(palette, "tertiaryColor"@) == tints::over(
                colors.bg,
                colors.fg,
                21_474_836,
            )
            &&& tints::variable(palette, "altBackground"@) == tints::over(
                colors.bg,
                colors.fg,
                21_474_836,
            )
            &&& tints::variable(palette, "commitLabelBackground"@) == tints::over(
                colors.bg,
                colors.fg,
                21_474_836,
            )
            &&& tints::variable(palette, "tertiaryBorderColor"@) == tints::over(
                colors.bg,
                colors.fg,
                80_530_640,
            )
            &&& tints::variable(palette, "clusterBorder"@) == tints::over(
                colors.bg,
                colors.fg,
                80_530_640,
            )
            &&& tints::variable(palette, "quadrantInternalBorderStrokeFill"@) == tints::over(
                colors.bg,
                colors.fg,
                80_530_640,
            )
            &&& tints::variable(palette, "archGroupBorderColor"@) == tints::over(
                colors.bg,
                colors.fg,
                80_530_640,
            )
            &&& tints::variable(palette, "clusterBkg"@) == tints::over(
                colors.bg,
                colors.fg,
                13_421_773,
            )
            &&& tints::variable(palette, "excludeBkgColor"@) == tints::over(
                colors.bg,
                colors.fg,
                13_421_773,
            )
            &&& tints::variable(palette, "actorLineColor"@) == tints::over(
                colors.bg,
                colors.fg,
                120_795_952,
            )
            &&& tints::variable(palette, "doneTaskBorderColor"@) == tints::over(
                colors.bg,
                colors.fg,
                120_795_952,
            )
            &&& tints::variable(palette, "activationBkgColor"@) == tints::over(
                colors.bg,
                colors.fg,
                40_265_320,
            )
            &&& tints::variable(palette, "attributeBackgroundColorOdd"@) == tints::over(
                colors.bg,
                colors.fg,
                10_737_418,
            )
            &&& tints::variable(palette, "attributeBackgroundColorEven"@) == tints::over(
                colors.bg,
                colors.fg,
                26_843_546,
            )
            &&& tints::variable(palette, "gridColor"@) == tints::over(
                colors.bg,
                colors.fg,
                53_687_092,
            )
            &&& tints::variable(palette, "doneTaskBkgColor"@) == tints::over(
                colors.bg,
                colors.fg,
                53_687_092,
            )
            &&& tints::variable(palette, "quadrant3Fill"@) == tints::over(
                colors.bg,
                colors.fg,
                16_106_127,
            )
        }),
{
    lemma_shown(palette, 3);
    lemma_shown(palette, 4);
    lemma_shown(palette, 20);
    lemma_shown(palette, 37);
    lemma_shown(palette, 49);
    lemma_shown(palette, 50);
    lemma_shown(palette, 78);
    lemma_shown(palette, 99);
    lemma_shown(palette, 103);
    lemma_shown(palette, 106);
    lemma_shown(palette, 107);
    lemma_shown(palette, 11);
    lemma_shown(palette, 47);
    lemma_shown(palette, 81);
    lemma_shown(palette, 12);
    lemma_shown(palette, 18);
    lemma_shown(palette, 98);
    lemma_shown(palette, 108);
    lemma_shown(palette, 17);
    lemma_shown(palette, 57);
    lemma_shown(palette, 29);
    lemma_shown(palette, 69);
    lemma_shown(palette, 36);
    lemma_shown(palette, 52);
    lemma_shown(palette, 53);
    lemma_shown(palette, 58);
    lemma_shown(palette, 68);
    lemma_shown(palette, 87);
}

/// Nodes, actors, states and tasks are blue: lightly filled, with a stronger border.
pub proof fn nodes_are_blue(palette: PaletteModel)
    requires
        palette.fg is Some && palette.bg is Some,
    ensures
        ({
            let colors = tints::reported(palette);
            &&& tints::variable(palette, "primaryColor"@) == tints::over(
                colors.bg,
                colors.blue,
                53_687_092,
            )
            &&& tints::variable(palette, "mainBkg"@) == tints::over(
                colors.bg,
                colors.blue,
                53_687_092,
            )
            &&& tints::variable(palette, "actorBkg"@) == tints::over(
                colors.bg,
                colors.blue,
                53_687_092,
            )
            &&& tints::variable(palette, "labelBoxBkgColor"@) == tints::over(
                colors.bg,
                colors.blue,
                53_687_092,
            )
            &&& tints::variable(palette, "stateBkg"@) == tints::over(
                colors.bg,
                colors.blue,
                53_687_092,
            )
            &&& tints::variable(palette, "labelBackgroundColor"@) == tints::over(
                colors.bg,
                colors.blue,
                53_687_092,
            )
            &&& tints::variable(palette, "compositeTitleBackground"@) == tints::over(
                colors.bg,
                colors.blue,
                53_687_092,
            )
            &&& tints::variable(palette, "requirementBackground"@) == tints::over(
                colors.bg,
                colors.blue,
                53_687_092,
            )
            &&& tints::variable(palette, "primaryBorderColor"@) == tints::over(
                colors.bg,
                colors.blue,
                187_904_816,
            )
            &&& tints::variable(palette, "nodeBorder"@) == tints::over(
                colors.bg,
                colors.blue,
                187_904_816,
            )
            &&& tints::variable(palette, "actorBorder"@) == tints::over(
                colors.bg,
                colors.blue,
                187_904_816,
            )
            &&& tints::variable(palette, "labelBoxBorderColor"@) == tints::over(
                colors.bg,
                colors.blue,
                187_904_816,
            )
            &&& tints::variable(palette, "stateBorder"@) == tints::over(
                colors.bg,
                colors.blue,
                187_904_816,
            )
            &&& tints::variable(palette, "compositeBorder"@) == tints::over(
                colors.bg,
                colors.blue,
                187_904_816,
            )
            &&& tints::variable(palette, "innerEndBackground"@) == tints::over(
                colors.bg,
                colors.blue,
                187_904_816,
            )
            &&& tints::variable(palette, "requirementBorderColor"@) == tints::over(
                colors.bg,
                colors.blue,
                187_904_816,
            )
            &&& tints::variable(palette, "sectionBkgColor"@) == tints::over(
                colors.bg,
                colors.blue,
                26_843_546,
            )
            &&& tints::variable(palette, "taskBkgColor"@) == tints::over(
                colors.bg,
                colors.blue,
                120_795_952,
            )
            &&& tints::variable(palette, "taskBorderColor"@) == tints::over(
                colors.bg,
                colors.blue,
                214_748_368,
            )
            &&& tints::variable(palette, "activeTaskBorderColor"@) == tints::over(
                colors.bg,
                colors.blue,
                214_748_368,
            )
            &&& tints::variable(palette, "taskTextClickableColor"@) == tints::over(
                colors.bg,
                colors.blue,
                268_435_456,
            )
            &&& tints::variable(palette, "quadrantPointFill"@) == tints::over(
                colors.bg,
                colors.blue,
                268_435_456,
            )
            &&& tints::variable(palette, "activeTaskBkgColor"@) == tints::over(
                colors.bg,
                colors.blue,
                67_108_864,
            )
            &&& tints::variable(palette, "quadrant1Fill"@) == tints::over(
                colors.bg,
                colors.blue,
                48_318_384,
            )
        }),
{
    lemma_shown(palette, 5);
    lemma_shown(palette, 14);
    lemma_shown(palette, 26);
    lemma_shown(palette, 32);
    lemma_shown(palette, 40);
    lemma_shown(palette, 43);
    lemma_shown(palette, 45);
    lemma_shown(palette, 100);
    lemma_shown(palette, 6);
    lemma_shown(palette, 15);
    lemma_shown(palette, 27);
    lemma_shown(palette, 33);
    lemma_shown(palette, 41);
    lemma_shown(palette, 46);
    lemma_shown(palette, 48);
    lemma_shown(palette, 101);
    lemma_shown(palette, 54);
    lemma_shown(palette, 59);
    lemma_shown(palette, 60);
    lemma_shown(palette, 67);
    lemma_shown(palette, 65);
    lemma_shown(palette, 93);
    lemma_shown(palette, 66);
    lemma_shown(palette, 85);
}

/// Notes and tags are yellow, errors and what is urgent red, and what is second to something magenta.
pub proof fn other_areas_have_their_colors(palette: PaletteModel)
    requires
        palette.fg is Some && palette.bg is Some,
    ensures
        ({
            let colors = tints::reported(palette);
            &&& tints::variable(palette, "secondaryColor"@) == tints::over(
                colors.bg,
                colors.magenta,
                53_687_092,
            )
            &&& tints::variable(palette, "secondaryBorderColor"@) == tints::over(
                colors.bg,
                colors.magenta,
                187_904_816,
            )
            &&& tints::variable(palette, "errorBkgColor"@) == tints::over(
                colors.bg,
                colors.red,
                80_530_640,
            )
            &&& tints::variable(palette, "noteBkgColor"@) == tints::over(
                colors.bg,
                colors.yellow,
                67_108_864,
            )
            &&& tints::variable(palette, "noteBorderColor"@) == tints::over(
                colors.bg,
                colors.yellow,
                161_061_280,
            )
            &&& tints::variable(palette, "sectionBkgColor2"@) == tints::over(
                colors.bg,
                colors.magenta,
                26_843_546,
            )
            &&& tints::variable(palette, "critBkgColor"@) == tints::over(
                colors.bg,
                colors.red,
                120_795_952,
            )
            &&& tints::variable(palette, "critBorderColor"@) == tints::over(
                colors.bg,
                colors.red,
                214_748_368,
            )
            &&& tints::variable(palette, "todayLineColor"@) == tints::over(
                colors.bg,
                colors.red,
                268_435_456,
            )
            &&& tints::variable(palette, "vertLineColor"@) == tints::over(
                colors.bg,
                colors.cyan,
                268_435_456,
            )
            &&& tints::variable(palette, "faceColor"@) == tints::over(
                colors.bg,
                colors.yellow,
                187_904_816,
            )
            &&& tints::variable(palette, "tagLabelBorder"@) == tints::over(
                colors.bg,
                colors.yellow,
                187_904_816,
            )
            &&& tints::variable(palette, "tagLabelBackground"@) == tints::over(
                colors.bg,
                colors.yellow,
                80_530_640,
            )
            &&& tints::variable(palette, "quadrant2Fill"@) == tints::over(
                colors.bg,
                colors.magenta,
                37_580_964,
            )
            &&& tints::variable(palette, "quadrant4Fill"@) == tints::over(
                colors.bg,
                colors.green,
                37_580_964,
            )
        }),
{
    lemma_shown(palette, 8);
    lemma_shown(palette, 9);
    lemma_shown(palette, 21);
    lemma_shown(palette, 23);
    lemma_shown(palette, 24);
    lemma_shown(palette, 56);
    lemma_shown(palette, 70);
    lemma_shown(palette, 71);
    lemma_shown(palette, 72);
    lemma_shown(palette, 73);
    lemma_shown(palette, 79);
    lemma_shown(palette, 84);
    lemma_shown(palette, 83);
    lemma_shown(palette, 86);
    lemma_shown(palette, 88);
}

} // verus!

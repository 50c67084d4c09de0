//! The ladders of steps: each rung is eleven tenths of the one before.
//!
//! The step tables of VOX and ADPCM-A, and from its ninth entry on that of IMA
//! ADPCM, hold sixteen times the powers of eleven tenths, rounded down. Below
//! sixteen the IMA table counts up from seven, and its last entry is the largest
//! 16-bit sample.

use vstd::prelude::*;

use vstd::arithmetic::power::{lemma_pow_adds, lemma_pow_positive, pow};

use crate::dialogic::vox_step;
use crate::ima_wav::ima_step;
use crate::tables::{IMA_STEP_SIZE, OKI_STEP_SIZE, YAMAHA_A_STEP_SIZE};
use crate::yamaha_a::{rhythm_step, RhythmModel};

verus! {

/// Sixteen times a power of eleven tenths, rounded down.
pub open spec fn is_rung(step: int, i: int) -> bool {
    step * pow(10, i as nat) <= 16 * pow(11, i as nat) < (step + 1) * pow(10, i as nat)
}

/// The rungs up to the largest that 16 bits hold.
proof fn rungs(i: int)
    requires
        0 <= i < 80,
    ensures
        is_rung(IMA_STEP_SIZE[8 + i] as int, i),
{
    reveal(pow);
    assert(pow(10, 0) == 1int);
    assert(pow(11, 0) == 1int);
    assert(is_rung(16, 0));
    assert(pow(10, 1) == 10int);
    assert(pow(11, 1) == 11int);
    assert(is_rung(17, 1));
    assert(pow(10, 2) == 100int);
    assert(pow(11, 2) == 121int);
    assert(is_rung(19, 2));
    assert(pow(10, 3) == 1000int);
    assert(pow(11, 3) == 1331int);
    assert(is_rung(21, 3));
    assert(pow(10, 4) == 10000int);
    assert(pow(11, 4) == 14641int);
    assert(is_rung(23, 4));
    assert(pow(10, 5) == 100000int);
    assert(pow(11, 5) == 161051int);
    assert(is_rung(25, 5));
    assert(pow(10, 6) == 1000000int);
    assert(pow(11, 6) == 1771561int);
    assert(is_rung(28, 6));
    assert(pow(10, 7) == 10000000int);
    assert(pow(11, 7) == 19487171int);
    assert(is_rung(31, 7));
    assert(pow(10, 8) == 100000000int);
    assert(pow(11, 8) == 214358881int);
    assert(is_rung(34, 8));
    assert(pow(10, 9) == 1000000000int);
    assert(pow(11, 9) == 2357947691int);
    assert(is_rung(37, 9));
    assert(pow(10, 10) == 10000000000int);
    assert(pow(11, 10) == 25937424601int);
    assert(is_rung(41, 10));
    assert(pow(10, 11) == 100000000000int);
    assert(pow(11, 11) == 285311670611int);
    assert(is_rung(45, 11));
    assert(pow(10, 12) == 1000000000000int);
    assert(pow(11, 12) == 3138428376721int);
    assert(is_rung(50, 12));
    assert(pow(10, 13) == 10000000000000int);
    assert(pow(11, 13) == 34522712143931int);
    assert(is_rung(55, 13));
    assert(pow(10, 14) == 100000000000000int);
    assert(pow(11, 14) == 379749833583241int);
    assert(is_rung(60, 14));
    assert(pow(10, 15) == 1000000000000000int);
    assert(pow(11, 15) == 4177248169415651int);
    assert(is_rung(66, 15));
    assert(pow(10, 16) == 10000000000000000int);
    assert(pow(11, 16) == 45949729863572161int);
    assert(is_rung(73, 16));
    assert(pow(10, 17) == 100000000000000000int);
    assert(pow(11, 17) == 505447028499293771int);
    assert(is_rung(80, 17));
    assert(pow(10, 18) == 1000000000000000000int);
    assert(pow(11, 18) == 5559917313492231481int);
    assert(is_rung(88, 18));
    assert(pow(10, 19) == 10000000000000000000int);
    assert(pow(11, 19) == 61159090448414546291int);
    assert(is_rung(97, 19));
    assert(pow(10, 20) == 100000000000000000000int);
    assert(pow(11, 20) == 672749994932560009201int);
    assert(is_rung(107, 20));
    assert(pow(10, 21) == 1000000000000000000000int);
    assert(pow(11, 21) == 7400249944258160101211int);
    assert(is_rung(118, 21));
    assert(pow(10, 22) == 10000000000000000000000int);
    assert(pow(11, 22) == 81402749386839761113321int);
    assert(is_rung(130, 22));
    assert(pow(10, 23) == 100000000000000000000000int);
    assert(pow(11, 23) == 895430243255237372246531int);
    assert(is_rung(143, 23));
    assert(pow(10, 24) == 1000000000000000000000000int);
    assert(pow(11, 24) == 9849732675807611094711841int);
    assert(is_rung(157, 24));
    assert(pow(10, 25) == 10000000000000000000000000int);
    assert(pow(11, 25) == 108347059433883722041830251int);
    assert(is_rung(173, 25));
    assert(pow(10, 26) == 100000000000000000000000000int);
    assert(pow(11, 26) == 1191817653772720942460132761int);
    assert(is_rung(190, 26));
    assert(pow(10, 27) == 1000000000000000000000000000int);
    assert(pow(11, 27) == 13109994191499930367061460371int);
    assert(is_rung(209, 27));
    assert(pow(10, 28) == 10000000000000000000000000000int);
    assert(pow(11, 28) == 144209936106499234037676064081int);
    assert(is_rung(230, 28));
    assert(pow(10, 29) == 100000000000000000000000000000int);
    assert(pow(11, 29) == 1586309297171491574414436704891int);
    assert(is_rung(253, 29));
    assert(pow(10, 30) == 1000000000000000000000000000000int);
    assert(pow(11, 30) == 17449402268886407318558803753801int);
    assert(is_rung(279, 30));
    assert(pow(10, 31) == 10000000000000000000000000000000int);
    assert(pow(11, 31) == 191943424957750480504146841291811int);
    assert(is_rung(307, 31));
    assert(pow(10, 32) == 100000000000000000000000000000000int);
    assert(pow(11, 32) == 2111377674535255285545615254209921int);
    assert(is_rung(337, 32));
    assert(pow(10, 33) == 1000000000000000000000000000000000int);
    assert(pow(11, 33) == 23225154419887808141001767796309131int);
    assert(is_rung(371, 33));
    assert(pow(10, 34) == 10000000000000000000000000000000000int);
    assert(pow(11, 34) == 255476698618765889551019445759400441int);
    assert(is_rung(408, 34));
    assert(pow(10, 35) == 100000000000000000000000000000000000int);
    assert(pow(11, 35) == 2810243684806424785061213903353404851int);
    assert(is_rung(449, 35));
    assert(pow(10, 36) == 1000000000000000000000000000000000000int);
    assert(pow(11, 36) == 30912680532870672635673352936887453361int);
    assert(is_rung(494, 36));
    assert(pow(10, 37) == 10000000000000000000000000000000000000int);
    assert(pow(11, 37) == 340039485861577398992406882305761986971int);
    assert(is_rung(544, 37));
    assert(pow(10, 38) == 100000000000000000000000000000000000000int);
    assert(pow(11, 38) == 3740434344477351388916475705363381856681int);
    assert(is_rung(598, 38));
    assert(pow(10, 39) == 1000000000000000000000000000000000000000int);
    assert(pow(11, 39) == 41144777789250865278081232758997200423491int);
    assert(is_rung(658, 39));
    assert(pow(10, 40) == 10000000000000000000000000000000000000000int);
    assert(pow(11, 40) == 452592555681759518058893560348969204658401int);
    assert(is_rung(724, 40));
    assert(pow(10, 41) == 100000000000000000000000000000000000000000int);
    assert(pow(11, 41) == 4978518112499354698647829163838661251242411int);
    assert(is_rung(796, 41));
    assert(pow(10, 42) == 1000000000000000000000000000000000000000000int);
    assert(pow(11, 42) == 54763699237492901685126120802225273763666521int);
    assert(is_rung(876, 42));
    assert(pow(10, 43) == 10000000000000000000000000000000000000000000int);
    assert(pow(11, 43) == 602400691612421918536387328824478011400331731int);
    assert(is_rung(963, 43));
    assert(pow(10, 44) == 100000000000000000000000000000000000000000000int);
    assert(pow(11, 44) == 6626407607736641103900260617069258125403649041int);
    assert(is_rung(1060, 44));
    assert(pow(10, 45) == 1000000000000000000000000000000000000000000000int);
    assert(pow(11, 45) == 72890483685103052142902866787761839379440139451int);
    assert(is_rung(1166, 45));
    assert(pow(10, 46) == 10000000000000000000000000000000000000000000000int);
    assert(pow(11, 46) == 801795320536133573571931534665380233173841533961int);
    assert(is_rung(1282, 46));
    assert(pow(10, 47) == 100000000000000000000000000000000000000000000000int);
    assert(pow(11, 47) == 8819748525897469309291246881319182564912256873571int);
    assert(is_rung(1411, 47));
    assert(pow(10, 48) == 1000000000000000000000000000000000000000000000000int);
    assert(pow(11, 48) == 97017233784872162402203715694511008214034825609281int);
    assert(is_rung(1552, 48));
    assert(pow(10, 49) == 10000000000000000000000000000000000000000000000000int);
    assert(pow(11, 49) == 1067189571633593786424240872639621090354383081702091int);
    assert(is_rung(1707, 49));
    assert(pow(10, 50) == 100000000000000000000000000000000000000000000000000int);
    assert(pow(11, 50) == 11739085287969531650666649599035831993898213898723001int);
    assert(is_rung(1878, 50));
    assert(pow(10, 51) == 1000000000000000000000000000000000000000000000000000int);
    assert(pow(11, 51) == 129129938167664848157333145589394151932880352885953011int);
    assert(is_rung(2066, 51));
    assert(pow(10, 52) == 10000000000000000000000000000000000000000000000000000int);
    assert(pow(11, 52) == 1420429319844313329730664601483335671261683881745483121int);
    assert(is_rung(2272, 52));
    assert(pow(10, 53) == 100000000000000000000000000000000000000000000000000000int);
    assert(pow(11, 53) == 15624722518287446627037310616316692383878522699200314331int);
    assert(is_rung(2499, 53));
    assert(pow(10, 54) == 1000000000000000000000000000000000000000000000000000000int);
    assert(pow(11, 54) == 171871947701161912897410416779483616222663749691203457641int);
    assert(is_rung(2749, 54));
    assert(pow(10, 55) == 10000000000000000000000000000000000000000000000000000000int);
    assert(pow(11, 55) == 1890591424712781041871514584574319778449301246603238034051int);
    assert(is_rung(3024, 55));
    assert(pow(10, 56) == 100000000000000000000000000000000000000000000000000000000int);
    assert(pow(11, 56) == 20796505671840591460586660430317517562942313712635618374561int);
    assert(is_rung(3327, 56));
    assert(pow(10, 57) == 1000000000000000000000000000000000000000000000000000000000int);
    assert(pow(11, 57) == 228761562390246506066453264733492693192365450838991802120171int);
    assert(is_rung(3660, 57));
    assert(pow(10, 58) == 10000000000000000000000000000000000000000000000000000000000int);
    assert(pow(11, 58) == 2516377186292711566730985912068419625116019959228909823321881int);
    assert(is_rung(4026, 58));
    assert(pow(10, 59) == 100000000000000000000000000000000000000000000000000000000000int);
    assert(pow(11, 59) == 27680149049219827234040845032752615876276219551518008056540691int);
    assert(is_rung(4428, 59));
    assert(pow(10, 60) == 1000000000000000000000000000000000000000000000000000000000000int);
    assert(pow(11, 60) == 304481639541418099574449295360278774639038415066698088621947601int);
    assert(is_rung(4871, 60));
    assert(pow(10, 61) == 10000000000000000000000000000000000000000000000000000000000000int);
    assert(pow(11, 61) == 3349298034955599095318942248963066521029422565733678974841423611int);
    assert(is_rung(5358, 61));
    assert(pow(10, 62) == 100000000000000000000000000000000000000000000000000000000000000int);
    assert(pow(11, 62) == 36842278384511590048508364738593731731323648223070468723255659721int);
    assert(is_rung(5894, 62));
    assert(pow(10, 63) == 1000000000000000000000000000000000000000000000000000000000000000int);
    assert(pow(11, 63) == 405265062229627490533592012124531049044560130453775155955812256931int);
    assert(is_rung(6484, 63));
    assert(pow(10, 64) == 10000000000000000000000000000000000000000000000000000000000000000int);
    assert(pow(11, 64) == 4457915684525902395869512133369841539490161434991526715513934826241int);
    assert(is_rung(7132, 64));
    assert(pow(10, 65) == 100000000000000000000000000000000000000000000000000000000000000000int);
    assert(pow(11, 65) == 49037072529784926354564633467068256934391775784906793870653283088651int);
    assert(is_rung(7845, 65));
    assert(pow(10, 66) == 1000000000000000000000000000000000000000000000000000000000000000000int);
    assert(pow(11, 66) == 539407797827634189900210968137750826278309533633974732577186113975161int);
    assert(is_rung(8630, 66));
    assert(pow(10, 67) == 10000000000000000000000000000000000000000000000000000000000000000000int);
    assert(pow(11, 67) == 5933485776103976088902320649515259089061404869973722058349047253726771int);
    assert(is_rung(9493, 67));
    assert(pow(10, 68) == 100000000000000000000000000000000000000000000000000000000000000000000int);
    assert(pow(11, 68) == 65268343537143736977925527144667849979675453569710942641839519790994481int);
    assert(is_rung(10442, 68));
    assert(pow(10, 69) == 1000000000000000000000000000000000000000000000000000000000000000000000int);
    assert(pow(11, 69) == 717951778908581106757180798591346349776429989266820369060234717700939291int);
    assert(is_rung(11487, 69));
    assert(pow(10, 70) == 10000000000000000000000000000000000000000000000000000000000000000000000int);
    assert(pow(11, 70) == 7897469567994392174328988784504809847540729881935024059662581894710332201int);
    assert(is_rung(12635, 70));
    assert(pow(10, 71) == 100000000000000000000000000000000000000000000000000000000000000000000000int);
    assert(pow(11, 71) == 86872165247938313917618876629552908322948028701285264656288400841813654211int);
    assert(is_rung(13899, 71));
    assert(pow(10, 72) == 1000000000000000000000000000000000000000000000000000000000000000000000000int);
    assert(pow(11, 72) == 955593817727321453093807642925081991552428315714137911219172409259950196321int);
    assert(is_rung(15289, 72));
    assert(pow(10, 73) == 10000000000000000000000000000000000000000000000000000000000000000000000000int);
    assert(pow(11, 73) == 10511531995000535984031884072175901907076711472855517023410896501859452159531int);
    assert(is_rung(16818, 73));
    assert(pow(10, 74) == 100000000000000000000000000000000000000000000000000000000000000000000000000int);
    assert(pow(11, 74) == 115626851945005895824350724793934920977843826201410687257519861520453973754841int);
    assert(is_rung(18500, 74));
    assert(pow(10, 75) == 1000000000000000000000000000000000000000000000000000000000000000000000000000int);
    assert(pow(11, 75) == 1271895371395064854067857972733284130756282088215517559832718476724993711303251int);
    assert(is_rung(20350, 75));
    assert(pow(10, 76) == 10000000000000000000000000000000000000000000000000000000000000000000000000000int);
    assert(pow(11, 76) == 13990849085345713394746437700066125438319102970370693158159903243974930824335761int);
    assert(is_rung(22385, 76));
    assert(pow(10, 77) == 100000000000000000000000000000000000000000000000000000000000000000000000000000int);
    assert(pow(11, 77) == 153899339938802847342210814700727379821510132674077624739758935683724239067693371int);
    assert(is_rung(24623, 77));
    assert(pow(10, 78) == 1000000000000000000000000000000000000000000000000000000000000000000000000000000int);
    assert(pow(11, 78) == 1692892739326831320764318961708001178036611459414853872137348292520966629744627081int);
    assert(is_rung(27086, 78));
    assert(pow(10, 79) == 10000000000000000000000000000000000000000000000000000000000000000000000000000000int);
    assert(pow(11, 79) == 18621820132595144528407508578788012958402726053563392593510831217730632927190897891int);
    assert(is_rung(29794, 79));
    assert(i == 0 || i == 1 || i == 2 || i == 3 || i == 4 || i == 5 || i == 6 || i == 7
        || i == 8 || i == 9 || i == 10 || i == 11 || i == 12 || i == 13 || i == 14 || i == 15
        || i == 16 || i == 17 || i == 18 || i == 19 || i == 20 || i == 21 || i == 22
        || i == 23 || i == 24 || i == 25 || i == 26 || i == 27 || i == 28 || i == 29
        || i == 30 || i == 31 || i == 32 || i == 33 || i == 34 || i == 35 || i == 36
        || i == 37 || i == 38 || i == 39 || i == 40 || i == 41 || i == 42 || i == 43
        || i == 44 || i == 45 || i == 46 || i == 47 || i == 48 || i == 49 || i == 50
        || i == 51 || i == 52 || i == 53 || i == 54 || i == 55 || i == 56 || i == 57
        || i == 58 || i == 59 || i == 60 || i == 61 || i == 62 || i == 63 || i == 64
        || i == 65 || i == 66 || i == 67 || i == 68 || i == 69 || i == 70 || i == 71
        || i == 72 || i == 73 || i == 74 || i == 75 || i == 76 || i == 77 || i == 78
        || i == 79);
}

/// The VOX ladder has 49 rungs. An index outside it counts as the nearest one.
pub proof fn vox_ladder(i: int)
    ensures
        0 <= i <= 48 ==> is_rung(vox_step(i), i),
        i < 0 ==> is_rung(vox_step(i), 0),
        i > 48 ==> is_rung(vox_step(i), 48),
{
    let k = if i < 0 {
        0
    } else if i > 48 {
        48
    } else {
        i
    };
    rungs(k);
    same_ladder(k);
}

/// The ADPCM-A ladder is that of VOX.
pub proof fn rhythm_ladder(s: RhythmModel)
    ensures
        0 <= s.step_index <= 48 ==> is_rung(rhythm_step(s), s.step_index),
        s.step_index < 0 ==> is_rung(rhythm_step(s), 0),
        s.step_index > 48 ==> is_rung(rhythm_step(s), 48),
{
    let i = s.step_index;
    let k = if i < 0 {
        0
    } else if i > 48 {
        48
    } else {
        i
    };
    rungs(k);
    same_ladder(k);
}

/// The IMA ladder has 89 rungs: seven and counting up to fourteen, then the powers
/// of eleven tenths, and last the largest 16-bit sample. An index outside it
/// counts as the nearest one.
pub proof fn ima_ladder(i: int)
    ensures
        i < 0 ==> ima_step(i) == 7,
        0 <= i < 8 ==> ima_step(i) == 7 + i,
        8 <= i < 88 ==> is_rung(ima_step(i), i - 8),
        i >= 88 ==> ima_step(i) == 32767,
{
    if 8 <= i < 88 {
        rungs(i - 8);
    }
    if 0 <= i < 8 {
        assert(i == 0 || i == 1 || i == 2 || i == 3 || i == 4 || i == 5 || i == 6 || i == 7);
    }
}

/// The shorter ladders are a part of the longer one.
proof fn same_ladder(k: int)
    requires
        0 <= k <= 48,
    ensures
        OKI_STEP_SIZE[k] == IMA_STEP_SIZE[8 + k],
        YAMAHA_A_STEP_SIZE[k] == IMA_STEP_SIZE[8 + k],
{
    assert(k == 0 || k == 1 || k == 2 || k == 3 || k == 4 || k == 5 || k == 6 || k == 7
        || k == 8 || k == 9 || k == 10 || k == 11 || k == 12 || k == 13 || k == 14 || k == 15
        || k == 16 || k == 17 || k == 18 || k == 19 || k == 20 || k == 21 || k == 22
        || k == 23 || k == 24 || k == 25 || k == 26 || k == 27 || k == 28 || k == 29
        || k == 30 || k == 31 || k == 32 || k == 33 || k == 34 || k == 35 || k == 36
        || k == 37 || k == 38 || k == 39 || k == 40 || k == 41 || k == 42 || k == 43
        || k == 44 || k == 45 || k == 46 || k == 47 || k == 48);
}

/// A rung is the only number that it can be, so the laws above leave one step for
/// each index, and a higher index never has a smaller step.
pub proof fn rungs_rise(a: int, i: int, b: int, j: int)
    requires
        0 <= i <= j,
        is_rung(a, i),
        is_rung(b, j),
    ensures
        i == j ==> a == b,
        a <= b,
    decreases j - i,
{
    let p = pow(10, i as nat);
    let q = pow(11, i as nat);
    lemma_pow_positive(10, i as nat);
    lemma_pow_positive(11, i as nat);
    let n = (j - i) as nat;
    lemma_pow_adds(10, i as nat, n);
    lemma_pow_adds(11, i as nat, n);
    lemma_pow_positive(10, n);
    powers_rise(n);
    let x = pow(10, n);
    let y = pow(11, n);
    assert(a * (p * x) <= 16 * (q * y)) by (nonlinear_arith)
        requires
            a * p <= 16 * q,
            0 < x <= y,
            q > 0,
    ;
    assert(a < b + 1) by (nonlinear_arith)
        requires
            a * (p * x) <= 16 * (q * y),
            16 * (q * y) < (b + 1) * (p * x),
            p > 0,
            x > 0,
    ;
    if i == j {
        assert(b < a + 1) by (nonlinear_arith)
            requires
                b * p <= 16 * q,
                16 * q < (a + 1) * p,
                p > 0,
        ;
    }
}

/// Powers of eleven are no smaller than those of ten.
proof fn powers_rise(n: nat)
    ensures
        0 < pow(10, n) <= pow(11, n),
    decreases n,
{
    reveal(pow);
    if n > 0 {
        powers_rise((n - 1) as nat);
    }
}

} // verus!

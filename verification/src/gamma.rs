//! The sRGB transfer function in fixed-point arithmetic.
//!
//! Encoded channel values are turned into linear light by a table and
//! back by a search in the same table, so that encoding inverts decoding
//! exactly.

use vstd::prelude::*;

verus! {

/// The linear-light value that stands for full intensity.
pub const LINEAR_ONE: u32 = 1_000_000_000;

/// The sRGB transfer function, tabulated: entry `c` is the linear light
/// of the encoded channel value `c`, in units of `1 / LINEAR_ONE`, rounded
/// to the nearest unit. In real numbers the entry is
/// `((c/255 + 0.055) / 1.055)^2.4` where `c/255 > 0.04045`, and
/// `c/255 / 12.92` below that.
pub const LINEAR_LIGHT: [u32; 256] = [
    0, 303527, 607054, 910581, 1214108, 1517635,
    1821162, 2124689, 2428216, 2731743, 3035270, 3346536,
    3676507, 4024717, 4391442, 4776953, 5181517, 5605392,
    6048833, 6512091, 6995410, 7499032, 8023193, 8568126,
    9134059, 9721217, 10329823, 10960094, 11612245, 12286488,
    12983032, 13702083, 14443844, 15208514, 15996293, 16807376,
    17641954, 18500220, 19382361, 20288563, 21219010, 22173885,
    23153366, 24157632, 25186860, 26241222, 27320892, 28426040,
    29556834, 30713444, 31896033, 33104767, 34339807, 35601315,
    36889450, 38204372, 39546235, 40915197, 42311411, 43735029,
    45186204, 46665086, 48171824, 49706566, 51269458, 52860647,
    54480276, 56128490, 57805430, 59511238, 61246054, 63010018,
    64803267, 66625939, 68478170, 70360096, 72271851, 74213568,
    76185381, 78187422, 80219820, 82282707, 84376212, 86500462,
    88655586, 90841711, 93058963, 95307467, 97587347, 99898728,
    102241733, 104616484, 107023103, 109461711, 111932428, 114435374,
    116970668, 119538428, 122138772, 124771818, 127437680, 130136477,
    132868322, 135633330, 138431615, 141263291, 144128471, 147027266,
    149959790, 152926152, 155926464, 158960835, 162029376, 165132195,
    168269400, 171441101, 174647404, 177888416, 181164244, 184474995,
    187820772, 191201683, 194617830, 198069320, 201556254, 205078736,
    208636870, 212230757, 215860500, 219526200, 223227957, 226965874,
    230740049, 234550582, 238397574, 242281122, 246201327, 250158285,
    254152094, 258182853, 262250658, 266355605, 270497791, 274677312,
    278894263, 283148740, 287440838, 291770650, 296138271, 300543794,
    304987314, 309468923, 313988713, 318546778, 323143209, 327778098,
    332451536, 337163615, 341914425, 346704056, 351532600, 356400144,
    361306780, 366252596, 371237680, 376262123, 381326011, 386429434,
    391572478, 396755231, 401977780, 407240212, 412542613, 417885071,
    423267670, 428690497, 434153636, 439657174, 445201195, 450785783,
    456411023, 462077000, 467783796, 473531496, 479320183, 485149940,
    491020850, 496932995, 502886458, 508881321, 514917665, 520995573,
    527115126, 533276404, 539479489, 545724461, 552011402, 558340390,
    564711506, 571124829, 577580440, 584078418, 590618841, 597201788,
    603827339, 610495571, 617206562, 623960392, 630757136, 637596874,
    644479682, 651405637, 658374817, 665387298, 672443157, 679542470,
    686685312, 693871761, 701101892, 708375780, 715693501, 723055129,
    730460740, 737910409, 745404210, 752942217, 760524505, 768151147,
    775822218, 783537792, 791297940, 799102738, 806952258, 814846572,
    822785754, 830769877, 838799012, 846873232, 854992608, 863157213,
    871367119, 879622397, 887923118, 896269353, 904661174, 913098652,
    921581856, 930110858, 938685728, 947306537, 955973353, 964686248,
    973445290, 982250550, 991102097, 1000000000,
];

/// The linear light of an encoded channel value.
pub open spec fn linear_light(channel: u8) -> int {
    LINEAR_LIGHT[channel as int] as int
}

/// The greatest channel value not above `upto` whose linear light is at
/// most `light`, and 0 where there is none.
pub open spec fn greatest_channel_within(light: int, upto: nat) -> nat
    decreases upto,
{
    if upto == 0 {
        0
    } else if upto <= 255 && linear_light(upto as u8) <= light {
        upto
    } else {
        greatest_channel_within(light, (upto - 1) as nat)
    }
}

/// The encoded channel value of a linear light: the greatest channel
/// value whose linear light does not exceed it. Light below zero encodes
/// as 0, light above `LINEAR_ONE` as 255.
pub open spec fn gamma_compressed(light: int) -> u8 {
    greatest_channel_within(light, 255) as u8
}

/// Brighter channel values have more linear light.
pub proof fn lemma_linear_light_increases(a: u8, b: u8)
    requires
        a < b,
    ensures
        linear_light(a) < linear_light(b),
    decreases b - a,
{
    let before = (b - 1) as u8;
    lemma_linear_light_step(before);
    if a < before {
        lemma_linear_light_increases(a, before);
    }
}

/// A channel value has less linear light than the next one.
proof fn lemma_linear_light_step(c: u8)
    requires
        c < 255,
    ensures
        linear_light(c) < linear_light((c + 1) as u8),
{
    lemma_linear_light_steps();
    assert(LINEAR_LIGHT[c as int] < LINEAR_LIGHT[c as int + 1]);
}

/// Each table entry exceeds the one before it.
proof fn lemma_linear_light_steps()
    ensures
        forall|c: int| 0 <= c < 255 ==> #[trigger] LINEAR_LIGHT[c] < LINEAR_LIGHT[c + 1],
        LINEAR_LIGHT[0] == 0,
        LINEAR_LIGHT[255] == LINEAR_ONE,
{
}

/// What the search for the greatest channel finds: a channel value not
/// above `upto` that either is 0 or has at most the given light, while
/// every channel value above it, up to `upto`, has more.
proof fn lemma_greatest_channel_within(light: int, upto: nat)
    requires
        upto <= 255,
    ensures
        greatest_channel_within(light, upto) <= upto,
        greatest_channel_within(light, upto) > 0 ==> linear_light(
            greatest_channel_within(light, upto) as u8,
        ) <= light,
        forall|k: int|
            greatest_channel_within(light, upto) < k <= upto ==> light < #[trigger] linear_light(
                k as u8,
            ),
    decreases upto,
{
    if upto > 0 && linear_light(upto as u8) > light {
        lemma_greatest_channel_within(light, (upto - 1) as nat);
    }
}

/// A channel value whose own light is at most `light`, and whose successor
/// has more, is the encoding of `light`.
pub proof fn lemma_gamma_compressed_is(light: int, channel: u8)
    requires
        channel > 0 ==> linear_light(channel) <= light,
        channel < 255 ==> light < linear_light((channel + 1) as u8),
    ensures
        gamma_compressed(light) == channel,
{
    let found = greatest_channel_within(light, 255);
    lemma_greatest_channel_within(light, 255);
    if found > channel {
        if found > channel + 1 {
            lemma_linear_light_increases((channel + 1) as u8, found as u8);
        }
    } else if found < channel {
        assert(light < linear_light(channel as int as u8));
    }
}

/// Encoding the linear light of a channel value gives that value back.
pub proof fn lemma_gamma_round_trip(channel: u8)
    ensures
        gamma_compressed(linear_light(channel)) == channel,
{
    if channel < 255 {
        lemma_linear_light_step(channel);
    }
    lemma_gamma_compressed_is(linear_light(channel), channel);
}

/// The linear light of an encoded channel value.
pub fn invert_gamma_compression(channel: u8) -> (light: u32)
    ensures
        light == linear_light(channel),
{
    LINEAR_LIGHT[channel as usize]
}

/// The encoded channel value of a linear light.
pub fn gamma_compression(light: i128) -> (channel: u8)
    ensures
        channel == gamma_compressed(light as int),
{
    let mut low: usize = 0;
    let mut high: usize = 256;
    while high - low > 1
        invariant
            low < high <= 256,
            low > 0 ==> linear_light(low as u8) <= light,
            high < 256 ==> light < linear_light(high as u8),
        decreases high - low,
    {
        let middle: usize = low + (high - low) / 2;
        if LINEAR_LIGHT[middle] as i128 <= light {
            low = middle;
        } else {
            high = middle;
        }
    }
    proof {
        lemma_gamma_compressed_is(light as int, low as u8);
    }
    low as u8
}

} // verus!

//! What the user is told about artwork that a symbol cannot hold.

use crate::binary64;
use crate::binary64::Binary64;
use crate::drawing::Opacity;
use vstd::arithmetic::power2;
use vstd::prelude::*;
use vstd::string::*;

verus! {

/// One millionth: opacities this close to zero or to one count as equal to it.
pub const OPACITY_EPSILON_BITS: u64 = 0x3eb0_c6f7_a0b5_ed8d;

/// One.
pub const ONE_BITS: u64 = 0x3ff0_0000_0000_0000;

/// The smallest number that is at most one millionth below one.
const LOWEST_OPAQUE_BITS: u64 = 0x3fef_fffd_e721_0bea;

/// The largest number that is at most one millionth above one.
const HIGHEST_OPAQUE_BITS: u64 = 0x3ff0_0001_0c6f_7a0b;

/// Lists of texts as plain sequences.
pub open spec fn texts(list: Seq<String>) -> Seq<Seq<char>> {
    Seq::new(list.len(), |i: int| list[i]@)
}

/// A list with one more warning, unless it holds the same warning already.
pub open spec fn noted(list: Seq<Seq<char>>, warning: Seq<char>) -> Seq<Seq<char>> {
    if list.contains(warning) {
        list
    } else {
        list.push(warning)
    }
}

/// A list after some warnings, one after the other.
pub open spec fn noted_all(list: Seq<Seq<char>>, more: Seq<Seq<char>>) -> Seq<Seq<char>>
    decreases more.len(),
{
    if more.len() == 0 {
        list
    } else {
        noted(noted_all(list, more.drop_last()), more.last())
    }
}

/// Whether something with this opacity does not show at all.
pub open spec fn is_invisible(opacity: Binary64) -> bool {
    let epsilon = Binary64 { bits: OPACITY_EPSILON_BITS };
    opacity.less(epsilon) || opacity.same(epsilon)
}

/// Whether something shines through, or would if opacities above one were possible.
pub open spec fn is_transparent(opacity: Binary64) -> bool {
    let one = Binary64 { bits: ONE_BITS };
    let epsilon = Binary64 { bits: OPACITY_EPSILON_BITS };
    &&& !opacity.is_nan()
    &&& {
        ||| opacity.units() - one.units() > epsilon.units()
        ||| one.units() - opacity.units() > epsilon.units()
    }
}

/// The warning about something that shines through.
pub open spec fn transparency_warning(description: Seq<char>, opacity: Seq<char>) -> Seq<char> {
    description + " uses opacity "@ + opacity + "; it was made fully opaque"@
}

/// The warnings about the opacity of something.
pub open spec fn opacity_warnings(opacity: Opacity, description: Seq<char>) -> Seq<Seq<char>> {
    if is_transparent(opacity.value) {
        seq![transparency_warning(description, opacity.text@)]
    } else {
        Seq::empty()
    }
}

/// Adds a warning, unless the same warning was given before.
pub fn push_warning(warnings: &mut Vec<String>, warning: String)
    ensures
        texts(final(warnings)@) == noted(texts(old(warnings)@), warning@),
{
    let mut position: usize = 0;
    while position < warnings.len()
        invariant
            position <= warnings.len(),
            warnings@ == old(warnings)@,
            forall|i: int| 0 <= i < position ==> #[trigger] texts(warnings@)[i] != warning@,
        decreases warnings.len() - position,
    {
        if warnings[position] == warning {
            assert(texts(warnings@)[position as int] == warning@);
            return;
        }
        position += 1;
    }
    assert(!texts(warnings@).contains(warning@));
    let ghost text = warning@;
    warnings.push(warning);
    assert(texts(warnings@) == texts(old(warnings)@).push(text));
}

/// Whether something with this opacity does not show at all.
pub fn opacity_hides(opacity: Binary64) -> (result: bool)
    ensures
        result == is_invisible(opacity),
{
    opacity.is_at_most(Binary64 { bits: OPACITY_EPSILON_BITS })
}

/// The values of the constants, as multiples of one power of two.
proof fn lemma_opacity_constants()
    ensures
        ({
            let one = binary64::magnitude_units(ONE_BITS as nat);
            let epsilon = binary64::magnitude_units(OPACITY_EPSILON_BITS as nat);
            let below = binary64::magnitude_units((LOWEST_OPAQUE_BITS - 1) as nat);
            let lowest = binary64::magnitude_units(LOWEST_OPAQUE_BITS as nat);
            let highest = binary64::magnitude_units(HIGHEST_OPAQUE_BITS as nat);
            let above = binary64::magnitude_units((HIGHEST_OPAQUE_BITS + 1) as nat);
            &&& one - below > epsilon
            &&& one - lowest <= epsilon
            &&& highest - one <= epsilon
            &&& above - one > epsilon
            &&& one > epsilon
        }),
{
    let unit = power2::pow2(1002);
    power2::lemma_pow2_pos(1002);
    power2::lemma_pow2_adds(1002, 19);
    power2::lemma_pow2_adds(1002, 20);
    power2::lemma2_to64();
    assert(power2::pow2(1021) == unit * 0x8_0000);
    assert(power2::pow2(1022) == unit * 0x10_0000);
    assert(binary64::magnitude_units(OPACITY_EPSILON_BITS as nat) == 0x10_c6f7_a0b5_ed8d * unit);
    assert(binary64::magnitude_units(ONE_BITS as nat) == 0x10_0000_0000_0000 * power2::pow2(1022));
    assert(binary64::magnitude_units(LOWEST_OPAQUE_BITS as nat) == 0x1f_fffd_e721_0bea
        * power2::pow2(1021));
    assert(binary64::magnitude_units((LOWEST_OPAQUE_BITS - 1) as nat) == 0x1f_fffd_e721_0be9
        * power2::pow2(1021));
    assert(binary64::magnitude_units(HIGHEST_OPAQUE_BITS as nat) == 0x10_0001_0c6f_7a0b
        * power2::pow2(1022));
    assert(binary64::magnitude_units((HIGHEST_OPAQUE_BITS + 1) as nat) == 0x10_0001_0c6f_7a0c
        * power2::pow2(1022));
}

/// Whether something shines through.
pub fn opacity_shines_through(opacity: Binary64) -> (result: bool)
    ensures
        result == is_transparent(opacity),
{
    let magnitude: u64 = opacity.abs().bits;
    proof {
        lemma_opacity_constants();
        binary64::lemma_magnitude_order_iff(magnitude as nat, LOWEST_OPAQUE_BITS as nat);
        binary64::lemma_magnitude_order_iff(magnitude as nat, (LOWEST_OPAQUE_BITS - 1) as nat);
        binary64::lemma_magnitude_order_iff(HIGHEST_OPAQUE_BITS as nat, magnitude as nat);
        binary64::lemma_magnitude_order_iff((HIGHEST_OPAQUE_BITS + 1) as nat, magnitude as nat);
    }
    if magnitude > binary64::INFINITY_BITS {
        false
    } else if !opacity.is_sign_positive() {
        true
    } else {
        magnitude < LOWEST_OPAQUE_BITS || magnitude > HIGHEST_OPAQUE_BITS
    }
}

/// Warns about something that shines through.
pub fn warn_if_transparent(opacity: &Opacity, description: &str, warnings: &mut Vec<String>)
    ensures
        texts(final(warnings)@) == noted_all(
            texts(old(warnings)@),
            opacity_warnings(*opacity, description@),
        ),
{
    if opacity_shines_through(opacity.value) {
        let mut warning = description.to_owned();
        warning.append(" uses opacity ");
        warning.append(opacity.text.as_str());
        warning.append("; it was made fully opaque");
        proof {
            lemma_noted_one(
                texts(warnings@),
                transparency_warning(description@, opacity.text@),
            );
        }
        push_warning(warnings, warning);
    }
}

/// Giving one warning is giving a list of one.
pub proof fn lemma_noted_one(list: Seq<Seq<char>>, warning: Seq<char>)
    ensures
        noted_all(list, seq![warning]) == noted(list, warning),
{
    assert(seq![warning].drop_last().len() == 0);
    assert(noted_all(list, seq![warning].drop_last()) == list);
}

/// Warnings may be given in two goes.
pub proof fn lemma_noted_concat(
    list: Seq<Seq<char>>,
    first: Seq<Seq<char>>,
    second: Seq<Seq<char>>,
)
    ensures
        noted_all(list, first + second) == noted_all(noted_all(list, first), second),
    decreases second.len(),
{
    if second.len() == 0 {
        assert(first + second == first);
    } else {
        assert((first + second).drop_last() == first + second.drop_last());
        lemma_noted_concat(list, first, second.drop_last());
    }
}

/// No warning is given twice, however often its cause occurs.
pub proof fn law_no_warning_is_repeated(list: Seq<Seq<char>>, more: Seq<Seq<char>>)
    requires
        list.no_duplicates(),
    ensures
        noted_all(list, more).no_duplicates(),
    decreases more.len(),
{
    if more.len() > 0 {
        law_no_warning_is_repeated(list, more.drop_last());
    }
}

/// No warning is lost: what was on the list stays where it was, and every new warning is
/// on it afterwards.
pub proof fn law_no_warning_is_lost(list: Seq<Seq<char>>, more: Seq<Seq<char>>)
    ensures
        list.is_prefix_of(noted_all(list, more)),
        forall|warning: Seq<char>| #[trigger]
            noted_all(list, more).contains(warning) <==> list.contains(warning) || more.contains(
                warning,
            ),
    decreases more.len(),
{
    if more.len() > 0 {
        let earlier = noted_all(list, more.drop_last());
        law_no_warning_is_lost(list, more.drop_last());
        assert forall|warning: Seq<char>| #[trigger]
            noted_all(list, more).contains(warning) <==> list.contains(warning) || more.contains(
                warning,
            ) by {
            lemma_push_contains(more.drop_last(), more.last(), warning);
            assert(more.drop_last().push(more.last()) == more);
            lemma_push_contains(earlier, more.last(), warning);
            assert(earlier.contains(warning) <==> list.contains(warning)
                || more.drop_last().contains(warning));
        }
    }
}

/// A longer list holds what the shorter one held, and the new item.
proof fn lemma_push_contains(list: Seq<Seq<char>>, item: Seq<char>, other: Seq<char>)
    ensures
        list.push(item).contains(other) <==> list.contains(other) || other == item,
{
    let longer = list.push(item);
    if list.contains(other) {
        let i = choose|i: int| 0 <= i < list.len() && list[i] == other;
        assert(longer[i] == other);
    }
    if other == item {
        assert(longer[list.len() as int] == other);
    }
    if longer.contains(other) && other != item {
        let i = choose|i: int| 0 <= i < longer.len() && longer[i] == other;
        assert(list[i] == other);
    }
}

/// What is at most one millionth opaque does not show, and nothing else.
pub proof fn law_up_to_one_millionth_is_invisible(opacity: Binary64)
    ensures
        is_invisible(opacity) <==> !opacity.is_nan() && opacity.units() * 1_000_000
            <= power2::pow2(1074),
{
    let unit = power2::pow2(1002);
    power2::lemma_pow2_pos(1002);
    power2::lemma_pow2_adds(1002, 72);
    power2::lemma_pow2_adds(64, 8);
    power2::lemma2_to64();
    assert(power2::pow2(72) == 0x100_0000_0000_0000_0000);
    let whole: int = power2::pow2(1074) as int;
    assert(whole == 0x100_0000_0000_0000_0000 * unit) by (nonlinear_arith)
        requires
            whole == unit * 0x100_0000_0000_0000_0000,
    ;
    let epsilon = binary64::magnitude_units(OPACITY_EPSILON_BITS as nat);
    let above = binary64::magnitude_units((OPACITY_EPSILON_BITS + 1) as nat);
    assert(epsilon == 0x10_c6f7_a0b5_ed8d * unit);
    assert(above == 0x10_c6f7_a0b5_ed8e * unit);
    binary64::lemma_magnitude_order_iff(opacity.magnitude(), OPACITY_EPSILON_BITS as nat);
    binary64::lemma_magnitude_order_iff(opacity.magnitude(), (OPACITY_EPSILON_BITS + 1) as nat);
    assert(epsilon * 1_000_000 <= whole);
    assert(above * 1_000_000 > whole);
}

/// What differs from full opacity by more than one millionth shines through, and nothing else.
pub proof fn law_more_than_one_millionth_from_one_shines_through(opacity: Binary64)
    ensures
        is_transparent(opacity) <==> !opacity.is_nan() && {
            ||| (opacity.units() - power2::pow2(1074)) * 1_000_000 > power2::pow2(1074)
            ||| (power2::pow2(1074) - opacity.units()) * 1_000_000 > power2::pow2(1074)
        },
{
    lemma_opacity_constants();
    let unit = power2::pow2(1021);
    power2::lemma_pow2_pos(1021);
    power2::lemma_pow2_adds(1021, 1);
    power2::lemma_pow2_adds(1022, 52);
    power2::lemma_pow2_adds(32, 20);
    power2::lemma2_to64();
    assert(power2::pow2(52) == 0x10_0000_0000_0000);
    assert(power2::pow2(1) == 2);
    let double = power2::pow2(1022);
    assert(double == 2 * unit) by (nonlinear_arith)
        requires
            double == unit * 2,
    ;
    let whole: int = power2::pow2(1074) as int;
    assert(whole == 0x10_0000_0000_0000 * double) by (nonlinear_arith)
        requires
            whole == double * 0x10_0000_0000_0000,
    ;
    let below = binary64::magnitude_units((LOWEST_OPAQUE_BITS - 1) as nat);
    let lowest = binary64::magnitude_units(LOWEST_OPAQUE_BITS as nat);
    let highest = binary64::magnitude_units(HIGHEST_OPAQUE_BITS as nat);
    let above = binary64::magnitude_units((HIGHEST_OPAQUE_BITS + 1) as nat);
    assert(binary64::magnitude_units(ONE_BITS as nat) == 0x10_0000_0000_0000 * double);
    assert(lowest == 0x1f_fffd_e721_0bea * unit);
    assert(below == 0x1f_fffd_e721_0be9 * unit);
    assert(highest == 0x10_0001_0c6f_7a0b * double);
    assert(above == 0x10_0001_0c6f_7a0c * double);
    let magnitude = opacity.magnitude();
    binary64::lemma_magnitude_order_iff(magnitude, (LOWEST_OPAQUE_BITS - 1) as nat);
    binary64::lemma_magnitude_order_iff(magnitude, LOWEST_OPAQUE_BITS as nat);
    binary64::lemma_magnitude_order_iff(magnitude, HIGHEST_OPAQUE_BITS as nat);
    binary64::lemma_magnitude_order_iff(magnitude, (HIGHEST_OPAQUE_BITS + 1) as nat);
    assert((whole - below) * 1_000_000 > whole);
    assert((whole - lowest) * 1_000_000 <= whole);
    assert((highest - whole) * 1_000_000 <= whole);
    assert((above - whole) * 1_000_000 > whole);
}

/// What shines through is reported with its description and its opacity, in this order.
pub proof fn law_transparency_is_reported(opacity: Opacity, description: Seq<char>)
    ensures
        opacity_warnings(opacity, description) == if is_transparent(opacity.value) {
            seq![
                description + " uses opacity "@ + opacity.text@ + "; it was made fully opaque"@,
            ]
        } else {
            Seq::<Seq<char>>::empty()
        },
{
}

/// Warnings are noted one after the other: a new one comes last, and one that was given
/// before changes nothing.
pub proof fn law_warnings_are_noted_in_order(
    list: Seq<Seq<char>>,
    more: Seq<Seq<char>>,
    warning: Seq<char>,
)
    ensures
        noted_all(list, Seq::empty()) == list,
        noted(list, warning) == if list.contains(warning) {
            list
        } else {
            list.push(warning)
        },
        noted_all(list, more.push(warning)) == if noted_all(list, more).contains(warning) {
            noted_all(list, more)
        } else {
            noted_all(list, more).push(warning)
        },
{
    assert(more.push(warning).drop_last() =~= more);
}

/// A list of texts has every text in its place.
pub proof fn law_texts_keep_their_places(list: Seq<String>)
    ensures
        texts(list).len() == list.len(),
        forall|i: int| 0 <= i < list.len() ==> #[trigger] texts(list)[i] == list[i]@,
{
}

} // verus!

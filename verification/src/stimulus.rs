//! The pattern that is shown for each transition, and how the transition is read
//! back from the brightness of its quadrants.

use vstd::prelude::*;

use crate::analysis::MeasurementMethod;
#[allow(unused_imports)]
use crate::arithmetic::is_above;

verus! {

/// The brightness of a dark quadrant.
pub const DARK_LEVEL: u8 = 16;

/// The brightness of a light quadrant.
pub const LIGHT_LEVEL: u8 = 240;

/// How many codes the quadrants can show before they repeat.
pub const CODE_CYCLE: u64 = 16;

/// The pattern of one transition: the colours of the top left, top right,
/// bottom left and bottom right quadrant.
#[derive(Debug, Clone, Copy)]
pub struct StimulusState {
    pub transition_id: u64,
    pub colors: [[u8; 3]; 4],
}

/// Quadrant `q` is a right one.
pub open spec fn is_right(q: int) -> bool {
    q == 1 || q == 3
}

/// Quadrant `q` is a bottom one.
pub open spec fn is_bottom(q: int) -> bool {
    q == 2 || q == 3
}

/// What quadrant `i` contributes to the code when it is light.
pub open spec fn quadrant_weight(i: int) -> int {
    if i == 0 {
        1
    } else if i == 1 {
        2
    } else if i == 2 {
        4
    } else {
        8
    }
}

/// Quadrant `i` is light in the pattern of transition `id`.
pub open spec fn is_light(method: MeasurementMethod, id: u64, i: int) -> bool {
    match method {
        MeasurementMethod::LumaStep => id % 2 == 1,
        MeasurementMethod::QuadCode => (id as int % 16) / quadrant_weight(i) % 2 == 1,
    }
}

/// Which quadrants are light in the pattern of transition `id`.
pub open spec fn shown(method: MeasurementMethod, id: u64) -> Seq<bool> {
    Seq::new(4, |i: int| is_light(method, id, i))
}

/// The grey of a quadrant.
pub open spec fn grey(light: bool) -> Seq<u8> {
    let level = if light {
        LIGHT_LEVEL
    } else {
        DARK_LEVEL
    };
    seq![level, level, level]
}

/// The code that light and dark quadrants spell.
pub open spec fn code_of(bright: Seq<bool>) -> int {
    (if bright[0] {
        1int
    } else {
        0
    }) + (if bright[1] {
        2int
    } else {
        0
    }) + (if bright[2] {
        4int
    } else {
        0
    }) + (if bright[3] {
        8int
    } else {
        0
    })
}

/// The first id after `previous` whose pattern shows `code`.
pub open spec fn next_with_code(previous: int, code: int) -> int {
    previous + 1 + (code - previous - 1) % 16
}

/// What a code stands for: without a previous transition the code itself, else
/// the first transition after it that shows the code.
pub open spec fn decoded(code: int, previous_id: Option<u64>) -> int {
    match previous_id {
        None => code,
        Some(previous) => next_with_code(previous as int, code),
    }
}

/// `bright` tells which of `lumas` exceed the threshold.
pub open spec fn are_bright<L: PartialOrd>(
    lumas: Seq<L>,
    threshold: L,
    bright: Seq<bool>,
) -> bool {
    &&& bright.len() == lumas.len()
    &&& forall|i: int|
        0 <= i < lumas.len() ==> is_above::<L>(lumas[i], threshold, #[trigger] bright[i])
}

/// `state` is the pattern of transition `id`.
pub open spec fn is_state_for(method: MeasurementMethod, id: u64, state: StimulusState) -> bool {
    &&& state.transition_id == id
    &&& forall|i: int|
        0 <= i < 4 ==> (#[trigger] state.colors@[i])@ == grey(is_light(method, id, i))
}

/// `id` is what the brightness of four quadrants stands for.
pub open spec fn is_decoded<L: PartialOrd>(
    lumas: Seq<L>,
    threshold: L,
    previous_id: Option<u64>,
    id: Option<u64>,
) -> bool {
    &&& id is Some
    &&& exists|bright: Seq<bool>| #[trigger]
        are_bright(lumas, threshold, bright) && id->0 == decoded(code_of(bright), previous_id)
}

fn grey_color(light: bool) -> (color: [u8; 3])
    ensures
        color@ == grey(light),
{
    if light {
        [LIGHT_LEVEL, LIGHT_LEVEL, LIGHT_LEVEL]
    } else {
        [DARK_LEVEL, DARK_LEVEL, DARK_LEVEL]
    }
}

/// The pattern that is shown for a transition.
pub fn state_for(method: MeasurementMethod, transition_id: u64) -> (state: StimulusState)
    ensures
        is_state_for(method, transition_id, state),
{
    let colors = match method {
        MeasurementMethod::LumaStep => {
            let color = grey_color(transition_id % 2 != 0);
            [color, color, color, color]
        },
        MeasurementMethod::QuadCode => {
            let code: u64 = transition_id % CODE_CYCLE;
            [
                grey_color(code % 2 == 1),
                grey_color(code / 2 % 2 == 1),
                grey_color(code / 4 % 2 == 1),
                grey_color(code / 8 % 2 == 1),
            ]
        },
    };
    StimulusState { transition_id, colors }
}

/// Finds the transition that light and dark quadrants stand for: the first one
/// after `previous_id` with the code that they spell.
pub fn decode_pattern(bright: [bool; 4], previous_id: Option<u64>) -> (id: u64)
    requires
        previous_id matches Some(previous) ==> previous + 32 <= u64::MAX,
    ensures
        id == decoded(code_of(bright@), previous_id),
{
    let mut code: u64 = 0;
    if bright[0] {
        code = code + 1;
    }
    if bright[1] {
        code = code + 2;
    }
    if bright[2] {
        code = code + 4;
    }
    if bright[3] {
        code = code + 8;
    }
    assert(code == code_of(bright@));
    match previous_id {
        None => code,
        Some(previous) => {
            let base: u64 = previous - previous % CODE_CYCLE;
            if base + code > previous {
                base + code
            } else {
                base + CODE_CYCLE + code
            }
        },
    }
}

/// Reads the code off the brightness of the four quadrants and finds the
/// transition that it stands for: the first one after `previous_id` with that code.
pub fn decode_quad_code<L: PartialOrd + Copy>(
    lumas: [L; 4],
    threshold: L,
    previous_id: Option<u64>,
) -> (id: Option<u64>)
    requires
        previous_id matches Some(previous) ==> previous + 32 <= u64::MAX,
    ensures
        is_decoded(lumas@, threshold, previous_id, id),
{
    let bright = [
        lumas[0] > threshold,
        lumas[1] > threshold,
        lumas[2] > threshold,
        lumas[3] > threshold,
    ];
    assert(are_bright(lumas@, threshold, bright@)) by {
        assert(is_above(lumas@[0], threshold, bright@[0]));
        assert(is_above(lumas@[1], threshold, bright@[1]));
        assert(is_above(lumas@[2], threshold, bright@[2]));
        assert(is_above(lumas@[3], threshold, bright@[3]));
    }
    Some(decode_pattern(bright, previous_id))
}

/// A decoded transition lies after the previous one, by at most one cycle of
/// codes, shows the code, and no transition in between shows it.
pub proof fn law_decoding_moves_forward(previous: u64, code: int)
    requires
        0 <= code < 16,
    ensures
        previous < next_with_code(previous as int, code) <= previous + 16,
        next_with_code(previous as int, code) % 16 == code,
        forall|id: int|
            previous < id < next_with_code(previous as int, code) ==> #[trigger] (id % 16) != code,
{
}

/// The code of a pattern is the transition's number within its cycle.
pub proof fn law_pattern_spells_id(id: u64)
    ensures
        code_of(shown(MeasurementMethod::QuadCode, id)) == id % 16,
{
    let code = id as int % 16;
    assert(code / 1 == code);
}

/// The pattern changes with every transition.
pub proof fn law_pattern_changes_every_transition(method: MeasurementMethod, id: u64)
    requires
        id < u64::MAX,
    ensures
        shown(method, id) != shown(method, (id + 1) as u64),
{
    let next = (id + 1) as u64;
    law_pattern_spells_id(id);
    law_pattern_spells_id(next);
    assert(shown(MeasurementMethod::LumaStep, id)[0] != shown(
        MeasurementMethod::LumaStep,
        next,
    )[0]);
}

/// Decoding undoes display: a transition that is at most one cycle of codes
/// ahead of the previous one is read back from its pattern.
pub proof fn law_decoding_inverts_display(previous: u64, id: u64)
    requires
        previous < id <= previous + 16,
    ensures
        decoded(code_of(shown(MeasurementMethod::QuadCode, id)), Some(previous)) == id,
{
    law_pattern_spells_id(id);
}

/// The first transition that is read is known up to whole cycles of codes.
pub proof fn law_first_decoding_is_id_within_cycle(id: u64)
    ensures
        decoded(code_of(shown(MeasurementMethod::QuadCode, id)), None) == id % 16,
{
    law_pattern_spells_id(id);
}

/// The colours of a pattern. A step of brightness is 16 all over for even
/// transitions and 240 for odd ones. Of coded quadrants the top left, top right,
/// bottom left and bottom right one are 240 where the transition has a one at the
/// binary digit of 1, 2, 4 and 8, and 16 where it has a zero.
pub proof fn law_colors_of_a_pattern(method: MeasurementMethod, id: u64, state: StimulusState)
    requires
        is_state_for(method, id, state),
    ensures
        state.transition_id == id,
        method == MeasurementMethod::LumaStep ==> forall|q: int, c: int|
            0 <= q < 4 && 0 <= c < 3 ==> #[trigger] state.colors@[q]@[c] == if id % 2 == 0 {
                16u8
            } else {
                240u8
            },
        method == MeasurementMethod::QuadCode ==> forall|c: int|
            0 <= c < 3 ==> {
                &&& state.colors@[0]@[c] == (if id % 2 == 1 { 240u8 } else { 16u8 })
                &&& state.colors@[1]@[c] == (if id / 2 % 2 == 1 { 240u8 } else { 16u8 })
                &&& state.colors@[2]@[c] == (if id / 4 % 2 == 1 { 240u8 } else { 16u8 })
                &&& #[trigger] state.colors@[3]@[c] == (if id / 8 % 2 == 1 { 240u8 } else { 16u8 })
            },
{
    assert(state.colors@[0]@ == grey(is_light(method, id, 0)));
    assert(state.colors@[1]@ == grey(is_light(method, id, 1)));
    assert(state.colors@[2]@ == grey(is_light(method, id, 2)));
    assert(state.colors@[3]@ == grey(is_light(method, id, 3)));
    if method == MeasurementMethod::LumaStep {
        assert forall|q: int, c: int| 0 <= q < 4 && 0 <= c < 3 implies #[trigger] state.colors@[q]@[c]
            == if id % 2 == 0 {
            16u8
        } else {
            240u8
        } by {
            assert(state.colors@[q]@ == grey(is_light(method, id, q)));
        }
    } else {
        let code = id as int % 16;
        assert(code / 1 == code);
        assert(code % 2 == id % 2);
        assert(code / 2 % 2 == id / 2 % 2);
        assert(code / 4 % 2 == id / 4 % 2);
        assert(code / 8 % 2 == id / 8 % 2);
    }
}

/// The binary digits of `id` at 1, 2, 4 and 8 are the given ones.
#[verifier::opaque]
pub open spec fn has_digits(id: int, d0: bool, d1: bool, d2: bool, d3: bool) -> bool {
    &&& (id % 2 == 1) == d0
    &&& (id / 2 % 2 == 1) == d1
    &&& (id / 4 % 2 == 1) == d2
    &&& (id / 8 % 2 == 1) == d3
}

pub proof fn lemma_digits_of_code(id: int, d0: bool, d1: bool, d2: bool, d3: bool)
    requires
        0 <= id,
    ensures
        has_digits(id, d0, d1, d2, d3) <==> id % 16 == code_of(seq![d0, d1, d2, d3]),
{
    reveal(has_digits);
    let (b0, b1, b2, b3) = (id % 2, id / 2 % 2, id / 4 % 2, id / 8 % 2);
    assert(id % 16 == b0 + 2 * b1 + 4 * b2 + 8 * b3) by {
        assert(id / 4 == id / 2 / 2);
        assert(id / 8 == id / 4 / 2);
        assert(id / 16 == id / 8 / 2);
        assert(id == 16 * (id / 16) + id % 16);
    }
    let bright = seq![d0, d1, d2, d3];
    let code = code_of(bright);
    assert(code == (if d0 { 1int } else { 0 }) + (if d1 { 2int } else { 0 }) + (if d2 {
        4int
    } else {
        0
    }) + (if d3 { 8int } else { 0 })) by {
        assert(bright[0] == d0 && bright[1] == d1 && bright[2] == d2 && bright[3] == d3);
    }
    assert(0 <= b0 < 2 && 0 <= b1 < 2 && 0 <= b2 < 2 && 0 <= b3 < 2);
}

/// Quadrants that are brighter than the threshold are binary digits. Without a
/// previous transition they are read as the number below sixteen with these digits,
/// else as the first number after the previous transition with them.
pub proof fn law_decoding_reads_digits<L: PartialOrd>(
    lumas: Seq<L>,
    threshold: L,
    previous_id: Option<u64>,
    id: Option<u64>,
    number: spec_fn(L) -> real,
)
    requires
        lumas.len() == 4,
        forall|a: L, b: L, r: bool| #[trigger]
            is_above(a, b, r) ==> r == (number(a) > number(b)),
        is_decoded(lumas, threshold, previous_id, id),
    ensures
        id is Some,
        ({
            let t = number(threshold);
            let (d0, d1) = (number(lumas[0]) > t, number(lumas[1]) > t);
            let (d2, d3) = (number(lumas[2]) > t, number(lumas[3]) > t);
            &&& has_digits(id->0 as int, d0, d1, d2, d3)
            &&& previous_id is None ==> id->0 < 16
            &&& previous_id matches Some(previous) ==> previous < id->0 && forall|k: int|
                previous < k < id->0 ==> !#[trigger] has_digits(k, d0, d1, d2, d3)
        }),
{
    let bright = choose|bright: Seq<bool>| #[trigger]
        are_bright(lumas, threshold, bright) && id->0 == decoded(code_of(bright), previous_id);
    assert(is_above(lumas[0], threshold, bright[0]));
    assert(is_above(lumas[1], threshold, bright[1]));
    assert(is_above(lumas[2], threshold, bright[2]));
    assert(is_above(lumas[3], threshold, bright[3]));
    assert(bright == seq![bright[0], bright[1], bright[2], bright[3]]);
    lemma_decoded_digits(bright, previous_id);
}

/// The same of quadrants that are known to be light or dark.
pub proof fn lemma_decoded_digits(bright: Seq<bool>, previous_id: Option<u64>)
    requires
        bright.len() == 4,
    ensures
        ({
            let id = decoded(code_of(bright), previous_id);
            let (d0, d1, d2, d3) = (bright[0], bright[1], bright[2], bright[3]);
            &&& 0 <= id
            &&& has_digits(id, d0, d1, d2, d3)
            &&& previous_id is None ==> id < 16
            &&& previous_id matches Some(previous) ==> previous < id && forall|k: int|
                previous < k < id ==> !#[trigger] has_digits(k, d0, d1, d2, d3)
        }),
{
    let id = decoded(code_of(bright), previous_id);
    let (d0, d1, d2, d3) = (bright[0], bright[1], bright[2], bright[3]);
    assert(bright == seq![d0, d1, d2, d3]);
    if let Some(previous) = previous_id {
        law_decoding_moves_forward(previous, code_of(bright));
        assert forall|k: int| previous < k < id implies !#[trigger] has_digits(k, d0, d1, d2, d3) by {
            lemma_digits_of_code(k, d0, d1, d2, d3);
        }
    }
    lemma_digits_of_code(id, d0, d1, d2, d3);
}

} // verus!

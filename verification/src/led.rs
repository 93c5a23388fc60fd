//! The colours of the lights under the keys.
use vstd::prelude::*;

verus! {

/// How many lights one board has.
pub const NUM_LEDS: usize = 28;

/// How many pictures there are before they start over.
pub const NUM_FRAMES: u16 = 256 * 5;

/// A colour.
#[derive(Debug, Copy, Clone, PartialEq, Eq, Structural)]
pub struct Rgb {
    pub r: u8,
    pub g: u8,
    pub b: u8,
}

/// The colour at `wheel_pos`: a third of the way round from red to green, a third from green to
/// blue, a third from blue back to red.
pub open spec fn wheel_colour(wheel_pos: u8) -> Rgb {
    if wheel_pos <= 85 {
        Rgb { r: (255 - 3 * wheel_pos) as u8, g: (3 * wheel_pos) as u8, b: 0 }
    } else if wheel_pos <= 170 {
        Rgb { r: 0, g: (255 - 3 * (wheel_pos - 85)) as u8, b: (3 * (wheel_pos - 85)) as u8 }
    } else {
        Rgb { r: (3 * (wheel_pos - 170)) as u8, g: 0, b: (255 - 3 * (wheel_pos - 170)) as u8 }
    }
}

/// Where on the wheel light `i` is in picture `j`.
pub open spec fn wheel_position(i: int, j: int) -> u8 {
    ((i * 256 / NUM_LEDS as int + j) % 256) as u8
}

/// The colour at `wheel_pos`, between 0 and 255. The colours go from red over green and blue back
/// to red.
pub fn wheel(wheel_pos: u8) -> (colour: Rgb)
    ensures
        colour == wheel_colour(wheel_pos),
{
    let mut pos: u8 = 255 - wheel_pos;
    if pos < 85 {
        return Rgb { r: 255 - pos * 3, g: 0, b: pos * 3 };
    }
    if pos < 170 {
        pos = pos - 85;
        return Rgb { r: 0, g: pos * 3, b: 255 - pos * 3 };
    }
    pos = pos - 170;
    Rgb { r: pos * 3, g: 255 - pos * 3, b: 0 }
}

/// Picture `j`: the colours of all lights, spread round the wheel.
pub fn led_frame(j: u16) -> (data: [Rgb; 28])
    requires
        j < NUM_FRAMES,
    ensures
        forall|i: int|
            0 <= i < NUM_LEDS ==> data@[i] == wheel_colour(wheel_position(i, j as int)),
{
    let mut data: [Rgb; 28] = [Rgb { r: 0, g: 0, b: 0 };28];
    let mut i: usize = 0;
    while i < NUM_LEDS
        invariant
            i <= NUM_LEDS,
            j < NUM_FRAMES,
            forall|k: int|
                0 <= k < i ==> data@[k] == wheel_colour(wheel_position(k, j as int)),
        decreases NUM_LEDS - i,
    {
        let turned: u16 = (i * 256) as u16 / NUM_LEDS as u16 + j;
        assert(turned & 255 == turned % 256) by (bit_vector);
        data[i] = wheel((turned & 255) as u8);
        i += 1;
    }
    data
}

/// The wheel is red, green and blue at its corners.
pub proof fn wheel_corners()
    ensures
        wheel_colour(0) == (Rgb { r: 255, g: 0, b: 0 }),
        wheel_colour(85) == (Rgb { r: 0, g: 255, b: 0 }),
        wheel_colour(170) == (Rgb { r: 0, g: 0, b: 255 }),
        wheel_colour(255) == (Rgb { r: 255, g: 0, b: 0 }),
{
}

/// Every colour of the wheel is as bright as any other, and mixes no more than two of red, green
/// and blue.
pub proof fn wheel_is_evenly_bright(wheel_pos: u8)
    ensures
        wheel_colour(wheel_pos).r + wheel_colour(wheel_pos).g + wheel_colour(wheel_pos).b == 255,
        wheel_colour(wheel_pos).r == 0 || wheel_colour(wheel_pos).g == 0 || wheel_colour(
            wheel_pos,
        ).b == 0,
{
}

/// One step round the wheel takes three from one of red, green and blue, gives them to the next and
/// leaves the third alone.
pub proof fn wheel_has_no_jumps(wheel_pos: u8)
    requires
        wheel_pos < 255,
    ensures
        ({
            let from = wheel_colour(wheel_pos);
            let to = wheel_colour((wheel_pos + 1) as u8);
            if wheel_pos < 85 {
                to.r == from.r - 3 && to.g == from.g + 3 && to.b == from.b
            } else if wheel_pos < 170 {
                to.r == from.r && to.g == from.g - 3 && to.b == from.b + 3
            } else {
                to.r == from.r + 3 && to.g == from.g && to.b == from.b - 3
            }
        }),
{
}

/// The pictures repeat after once round the wheel, so that starting over shows no jump.
pub proof fn pictures_repeat(i: int, j: int)
    requires
        0 <= i < NUM_LEDS,
        0 <= j,
    ensures
        wheel_position(i, j + 256) == wheel_position(i, j),
        wheel_position(i, j + NUM_FRAMES) == wheel_position(i, j),
{
}

/// In the first picture the lights stand evenly round the wheel: light `i` at the place that is `i`
/// of 28 parts of it, rounded down.
pub proof fn lights_are_spread_evenly(i: int)
    requires
        0 <= i < 28,
    ensures
        28 * wheel_position(i, 0) <= 256 * i < 28 * (wheel_position(i, 0) + 1),
{
}

/// From one picture to the next every light goes one place on, and from the last place to the
/// first.
pub proof fn lights_go_one_place_on(i: int, j: int)
    requires
        0 <= i < 28,
        0 <= j,
    ensures
        wheel_position(i, j + 1) == if wheel_position(i, j) == 255 {
            0
        } else {
            wheel_position(i, j) + 1
        },
{
}

/// There are as many pictures as take each light five times round.
pub proof fn pictures_go_five_times_round()
    ensures
        NUM_FRAMES == 1280,
        NUM_LEDS == 28,
{
}

} // verus!

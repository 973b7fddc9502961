//! The frames of a strip of 256 lights shown as 32 columns of 8: one colour
//! for all, one light alone, and gradients between two colours. A colour is
//! a number whose three low bytes are blue, green and red. How far a
//! gradient has moved at each column is handed in by the caller, one amount
//! per column.
use vstd::prelude::*;
use vstd::array::*;

verus! {

/// How many lights the strip has.
pub const LED_COUNT: usize = 256;

/// How many columns a gradient has.
pub const COLUMNS: usize = 32;

/// The strip of lights: the colour that each light shows.
pub struct Display {
    leds: Vec<u32>,
}

/// Column `k` of a gradient of one colour channel from `from` to `to`
/// between the columns `start` and `end`: `from` before `start`, `to` after
/// `end`, and in between `from` moved towards `to` by the amount for the
/// column's distance from `start`.
pub open spec fn gradient8_at(from: u8, to: u8, start: int, end: int, steps: Seq<u8>, k: int) -> int {
    if k < start {
        from as int
    } else if k <= end {
        if from > to {
            from - steps[k - start]
        } else {
            from + steps[k - start]
        }
    } else {
        to as int
    }
}

/// How far apart two values of a channel are.
pub open spec fn span(from: u8, to: u8) -> int {
    if from > to {
        from - to
    } else {
        to - from
    }
}

/// Whether the amounts make a gradient from `from` towards `to`: the first
/// is nothing, none is less than the one before, and none moves the
/// channel past `to`.
pub open spec fn steps_fit(from: u8, to: u8, start: int, end: int, steps: Seq<u8>) -> bool {
    &&& steps[0] == 0
    &&& forall|i: int| 0 <= i < end - start ==> (#[trigger] steps[i]) <= steps[i + 1]
    &&& forall|i: int| 0 <= i <= end - start ==> (#[trigger] steps[i]) <= span(from, to)
}

/// A gradient starts at `from` and never moves away from `to`.
pub proof fn law_gradient_moves_one_way(
    from: u8,
    to: u8,
    start: int,
    end: int,
    steps: Seq<u8>,
    k: int,
)
    requires
        0 <= start <= end,
        steps_fit(from, to, start, end, steps),
        start <= k < end,
    ensures
        gradient8_at(from, to, start, end, steps, start) == from,
        from <= to ==> from <= gradient8_at(from, to, start, end, steps, k) <= gradient8_at(
            from,
            to,
            start,
            end,
            steps,
            k + 1,
        ) <= to,
        from > to ==> from >= gradient8_at(from, to, start, end, steps, k) >= gradient8_at(
            from,
            to,
            start,
            end,
            steps,
            k + 1,
        ) >= to,
{
    assert(steps[k - start] <= steps[k - start + 1]);
    assert(steps[k - start + 1] <= span(from, to));
    assert(steps[k - start] <= span(from, to));
}

/// Byte `n` of a colour, counted from the low end.
pub open spec fn channel(color: u32, n: nat) -> u8 {
    if n == 0 {
        (color % 256) as u8
    } else if n == 1 {
        ((color / 256) % 256) as u8
    } else {
        ((color / 65536) % 256) as u8
    }
}

/// The colour with these three channels.
pub open spec fn color_of(red: int, green: int, blue: int) -> int {
    blue + green * 256 + red * 65536
}

/// Column `k` of a gradient between two colours: each of the three
/// channels runs its own gradient, with its own amounts.
pub open spec fn gradient32_at(
    from: u32,
    to: u32,
    start: int,
    end: int,
    red: Seq<u8>,
    green: Seq<u8>,
    blue: Seq<u8>,
    k: int,
) -> int {
    color_of(
        gradient8_at(channel(from, 2), channel(to, 2), start, end, red, k),
        gradient8_at(channel(from, 1), channel(to, 1), start, end, green, k),
        gradient8_at(channel(from, 0), channel(to, 0), start, end, blue, k),
    )
}

/// Whether the amounts of all three channels never move a channel past its
/// end.
pub open spec fn all_steps_fit(
    from: u32,
    to: u32,
    start: int,
    end: int,
    red: Seq<u8>,
    green: Seq<u8>,
    blue: Seq<u8>,
) -> bool {
    &&& steps_fit(channel(from, 2), channel(to, 2), start, end, red)
    &&& steps_fit(channel(from, 1), channel(to, 1), start, end, green)
    &&& steps_fit(channel(from, 0), channel(to, 0), start, end, blue)
}

/// Byte `n` of a colour, counted from the low end.
fn channel_of(color: u32, n: u8) -> (r: u8)
    requires
        n <= 2,
    ensures
        r == channel(color, n as nat),
{
    if n == 0 {
        (color % 256) as u8
    } else if n == 1 {
        ((color / 256) % 256) as u8
    } else {
        ((color / 65536) % 256) as u8
    }
}

impl Display {
    /// The colours that the lights show, in order.
    pub closed spec fn leds(&self) -> Seq<u32> {
        self.leds@
    }

    /// The strip always has all its lights.
    #[verifier::type_invariant]
    pub closed spec fn well_formed(self) -> bool {
        self.leds@.len() == LED_COUNT
    }

    /// A strip with all lights dark.
    pub fn new() -> (r: Display)
        ensures
            r.leds().len() == LED_COUNT,
            forall|i: int| 0 <= i < LED_COUNT ==> r.leds()[i] == 0,
    {
        let mut leds: Vec<u32> = Vec::new();
        let mut i: usize = 0;
        while i < LED_COUNT
            invariant
                i <= LED_COUNT,
                leds@.len() == i,
                forall|j: int| 0 <= j < i ==> leds@[j] == 0,
            decreases LED_COUNT - i,
        {
            leds.push(0);
            i += 1;
        }
        Display { leds }
    }

    /// The colours that the lights show, for the caller to put on the
    /// strip.
    pub fn frame(&self) -> (r: &Vec<u32>)
        ensures
            r@ == self.leds(),
            r@.len() == LED_COUNT,
    {
        proof {
            use_type_invariant(self);
        }
        &self.leds
    }

    /// Shows one colour on all lights.
    pub fn setAllLedsToRgb(&mut self, colorCodeRgb: u32)
        ensures
            final(self).leds().len() == LED_COUNT,
            forall|i: int| 0 <= i < LED_COUNT ==> final(self).leds()[i] == colorCodeRgb,
    {
        let mut leds: Vec<u32> = Vec::new();
        let mut i: usize = 0;
        while i < LED_COUNT
            invariant
                i <= LED_COUNT,
                leds@.len() == i,
                forall|j: int| 0 <= j < i ==> leds@[j] == colorCodeRgb,
            decreases LED_COUNT - i,
        {
            leds.push(colorCodeRgb);
            i += 1;
        }
        self.leds = leds;
    }

    /// Shows a colour on the light `ledId` and darkens all others. With a
    /// `ledId` beyond the strip all lights go dark.
    pub fn setOnlyOneLedToRgb(&mut self, ledId: u32, colorCodeRgb: u32)
        ensures
            final(self).leds().len() == LED_COUNT,
            forall|i: int|
                0 <= i < LED_COUNT ==> final(self).leds()[i] == if i == ledId {
                    colorCodeRgb
                } else {
                    0u32
                },
    {
        let mut leds: Vec<u32> = Vec::new();
        let mut i: usize = 0;
        while i < LED_COUNT
            invariant
                i <= LED_COUNT,
                leds@.len() == i,
                forall|j: int|
                    0 <= j < i ==> leds@[j] == if j == ledId {
                        colorCodeRgb
                    } else {
                        0u32
                    },
            decreases LED_COUNT - i,
        {
            if i as u32 == ledId {
                leds.push(colorCodeRgb);
            } else {
                leds.push(0);
            }
            i += 1;
        }
        self.leds = leds;
    }

    /// The gradient of one colour channel over the 32 columns.
    pub fn generateGradient8(
        &mut self,
        fromColor: u8,
        toColor: u8,
        start: usize,
        end: usize,
        steps: &[u8; 32],
    ) -> (r: [u8; 32])
        requires
            start <= end < COLUMNS,
            steps_fit(fromColor, toColor, start as int, end as int, steps@),
        ensures
            *final(self) == *old(self),
            forall|k: int|
                0 <= k < COLUMNS ==> r@[k] == gradient8_at(
                    fromColor,
                    toColor,
                    start as int,
                    end as int,
                    steps@,
                    k,
                ),
    {
        let mut array: [u8; 32] = [0u8; 32];
        let mut k: usize = 0;
        while k < COLUMNS
            invariant
                k <= COLUMNS,
                start <= end < COLUMNS,
                steps_fit(fromColor, toColor, start as int, end as int, steps@),
                forall|j: int|
                    0 <= j < k ==> array@[j] == gradient8_at(
                        fromColor,
                        toColor,
                        start as int,
                        end as int,
                        steps@,
                        j,
                    ),
            decreases COLUMNS - k,
        {
            let value: u8 = if k < start {
                fromColor
            } else if k <= end {
                let step: u8 = steps[k - start];
                assert(steps@[k - start] == step);
                if fromColor > toColor {
                    fromColor - step
                } else {
                    fromColor + step
                }
            } else {
                toColor
            };
            array[k] = value;
            k += 1;
        }
        array
    }

    /// The gradient between two colours over the 32 columns.
    pub fn generateGradient32(
        &mut self,
        fromColor: u32,
        toColor: u32,
        start: usize,
        end: usize,
        stepsRed: &[u8; 32],
        stepsGreen: &[u8; 32],
        stepsBlue: &[u8; 32],
    ) -> (r: [u32; 32])
        requires
            start <= end < COLUMNS,
            all_steps_fit(
                fromColor,
                toColor,
                start as int,
                end as int,
                stepsRed@,
                stepsGreen@,
                stepsBlue@,
            ),
        ensures
            *final(self) == *old(self),
            forall|k: int|
                0 <= k < COLUMNS ==> r@[k] == gradient32_at(
                    fromColor,
                    toColor,
                    start as int,
                    end as int,
                    stepsRed@,
                    stepsGreen@,
                    stepsBlue@,
                    k,
                ),
    {
        let gradientR = self.generateGradient8(
            channel_of(fromColor, 2),
            channel_of(toColor, 2),
            start,
            end,
            stepsRed,
        );
        let gradientG = self.generateGradient8(
            channel_of(fromColor, 1),
            channel_of(toColor, 1),
            start,
            end,
            stepsGreen,
        );
        let gradientB = self.generateGradient8(
            channel_of(fromColor, 0),
            channel_of(toColor, 0),
            start,
            end,
            stepsBlue,
        );
        let mut array: [u32; 32] = [0u32; 32];
        let mut k: usize = 0;
        while k < COLUMNS
            invariant
                k <= COLUMNS,
                forall|j: int|
                    0 <= j < k ==> array@[j] == color_of(
                        gradientR@[j] as int,
                        gradientG@[j] as int,
                        gradientB@[j] as int,
                    ),
            decreases COLUMNS - k,
        {
            let red: u32 = gradientR[k] as u32;
            let green: u32 = gradientG[k] as u32;
            let blue: u32 = gradientB[k] as u32;
            array[k] = blue + green * 256 + red * 65536;
            k += 1;
        }
        array
    }

    /// Shows a gradient between two colours: every column of eight lights
    /// shows its colour of the gradient.
    pub fn setRgbGradientMod(
        &mut self,
        colorCodeRgbLeft: u32,
        colorCodeRgbRight: u32,
        start: usize,
        end: usize,
        stepsRed: &[u8; 32],
        stepsGreen: &[u8; 32],
        stepsBlue: &[u8; 32],
    )
        requires
            start <= end < COLUMNS,
            all_steps_fit(
                colorCodeRgbLeft,
                colorCodeRgbRight,
                start as int,
                end as int,
                stepsRed@,
                stepsGreen@,
                stepsBlue@,
            ),
        ensures
            final(self).leds().len() == LED_COUNT,
            forall|i: int|
                0 <= i < LED_COUNT ==> final(self).leds()[i] == gradient32_at(
                    colorCodeRgbLeft,
                    colorCodeRgbRight,
                    start as int,
                    end as int,
                    stepsRed@,
                    stepsGreen@,
                    stepsBlue@,
                    i / 8,
                ),
    {
        let gradient = self.generateGradient32(
            colorCodeRgbLeft,
            colorCodeRgbRight,
            start,
            end,
            stepsRed,
            stepsGreen,
            stepsBlue,
        );
        let mut leds: Vec<u32> = Vec::new();
        let mut i: usize = 0;
        while i < LED_COUNT
            invariant
                i <= LED_COUNT,
                leds@.len() == i,
                forall|j: int| 0 <= j < i ==> leds@[j] == gradient@[j / 8],
            decreases LED_COUNT - i,
        {
            leds.push(gradient[i / 8]);
            i += 1;
        }
        self.leds = leds;
    }

    /// Shows a gradient between two colours over the whole strip.
    pub fn setRgbGradient(
        &mut self,
        colorCodeRgbLeft: u32,
        colorCodeRgbRight: u32,
        stepsRed: &[u8; 32],
        stepsGreen: &[u8; 32],
        stepsBlue: &[u8; 32],
    )
        requires
            all_steps_fit(colorCodeRgbLeft, colorCodeRgbRight, 0, 31, stepsRed@, stepsGreen@, stepsBlue@),
        ensures
            final(self).leds().len() == LED_COUNT,
            forall|i: int|
                0 <= i < LED_COUNT ==> final(self).leds()[i] == gradient32_at(
                    colorCodeRgbLeft,
                    colorCodeRgbRight,
                    0,
                    31,
                    stepsRed@,
                    stepsGreen@,
                    stepsBlue@,
                    i / 8,
                ),
    {
        self.setRgbGradientMod(
            colorCodeRgbLeft,
            colorCodeRgbRight,
            0,
            31,
            stepsRed,
            stepsGreen,
            stepsBlue,
        )
    }
}

impl Default for Display {
    fn default() -> (r: Display)
        ensures
            r.leds().len() == LED_COUNT,
            forall|i: int| 0 <= i < LED_COUNT ==> r.leds()[i] == 0,
    {
        Display::new()
    }
}

/// Whether the amounts fit, so that a gradient can be computed from them.
pub fn steps_are_fit(fromColor: u8, toColor: u8, start: usize, end: usize, steps: &[u8; 32]) -> (r:
    bool)
    ensures
        r == (start <= end < COLUMNS && steps_fit(
            fromColor,
            toColor,
            start as int,
            end as int,
            steps@,
        )),
{
    if !(start <= end && end < COLUMNS) {
        return false;
    }
    let widest: u8 = if fromColor > toColor {
        fromColor - toColor
    } else {
        toColor - fromColor
    };
    if steps[0] != 0 {
        return false;
    }
    let mut i: usize = 0;
    while i < end - start
        invariant
            start <= end < COLUMNS,
            i <= end - start,
            widest == span(fromColor, toColor),
            steps@[0] == 0,
            forall|j: int| 0 <= j < i ==> (#[trigger] steps@[j]) <= steps@[j + 1],
            forall|j: int| 0 <= j <= i ==> (#[trigger] steps@[j]) <= widest,
        decreases end - start - i,
    {
        if steps[i] > steps[i + 1] || steps[i + 1] > widest {
            return false;
        }
        i += 1;
    }
    true
}

/// Whether the amounts of all three channels fit.
pub fn all_steps_are_fit(
    fromColor: u32,
    toColor: u32,
    start: usize,
    end: usize,
    stepsRed: &[u8; 32],
    stepsGreen: &[u8; 32],
    stepsBlue: &[u8; 32],
) -> (r: bool)
    ensures
        r == (start <= end < COLUMNS && all_steps_fit(
            fromColor,
            toColor,
            start as int,
            end as int,
            stepsRed@,
            stepsGreen@,
            stepsBlue@,
        )),
{
    steps_are_fit(channel_of(fromColor, 2), channel_of(toColor, 2), start, end, stepsRed)
        && steps_are_fit(channel_of(fromColor, 1), channel_of(toColor, 1), start, end, stepsGreen)
        && steps_are_fit(channel_of(fromColor, 0), channel_of(toColor, 0), start, end, stepsBlue)
}

/// The red, green and blue channel of a colour.
pub fn channels(color: u32) -> (r: (u8, u8, u8))
    ensures
        r.0 == channel(color, 2),
        r.1 == channel(color, 1),
        r.2 == channel(color, 0),
{
    (channel_of(color, 2), channel_of(color, 1), channel_of(color, 0))
}

/// The light that a running light shows at step `step`: up from the first
/// light to the one before the last of `count`, then down from the last to
/// the second, and so on.
pub open spec fn running_position(count: int, step: int) -> int {
    let period = 2 * (count - 1);
    let phase = step % period;
    if phase < count - 1 {
        phase
    } else {
        count - 1 - (phase - (count - 1))
    }
}

/// The light that a running light over `count` lights shows at step
/// `step`.
pub fn running_led_position(count: u32, step: u64) -> (r: u32)
    requires
        2 <= count <= LED_COUNT,
    ensures
        r == running_position(count as int, step as int),
        r < count,
{
    let period: u64 = 2 * (count as u64 - 1);
    let phase: u64 = step % period;
    if phase < count as u64 - 1 {
        phase as u32
    } else {
        (count as u64 - 1 - (phase - (count as u64 - 1))) as u32
    }
}

/// The columns between which a moving gradient runs at step `step`: it
/// grows from the left, shrinks to the right, grows from the right and
/// shrinks to the left, 31 steps each.
pub open spec fn gradient_window_at(step: int) -> (int, int) {
    let phase = (step / 31) % 4;
    let i = step % 31;
    if phase == 0 {
        (0, i)
    } else if phase == 1 {
        (i, 31)
    } else if phase == 2 {
        (31 - i, 31)
    } else {
        (0, 31 - i)
    }
}

/// The columns between which a moving gradient runs at step `step`.
pub fn gradient_window(step: u64) -> (r: (usize, usize))
    ensures
        r.0 == gradient_window_at(step as int).0,
        r.1 == gradient_window_at(step as int).1,
        r.0 <= r.1 < COLUMNS,
{
    let phase: u64 = (step / 31) % 4;
    let i: usize = (step % 31) as usize;
    if phase == 0 {
        (0, i)
    } else if phase == 1 {
        (i, 31)
    } else if phase == 2 {
        (31 - i, 31)
    } else {
        (0, 31 - i)
    }
}

} // verus!

use vstd::prelude::*;

verus! {

/// An RGB color with 8 bits per channel.
#[derive(Clone, Copy, Debug, PartialEq, Eq, Structural)]
pub struct Color {
    pub red: u8,
    pub green: u8,
    pub blue: u8,
}

/// The color that a packed 15-bit word stands for: 5 bits per channel, red in
/// the lowest bits, each channel scaled by 8. Bit 15 is ignored.
pub open spec fn color_of_word(w: u16) -> Color {
    Color {
        red: ((w % 32) * 8) as u8,
        green: (((w / 32) % 32) * 8) as u8,
        blue: (((w / 1024) % 32) * 8) as u8,
    }
}

/// The packed word of a color: each channel divided by 8, bit 15 clear.
pub open spec fn word_of_color(c: Color) -> u16 {
    (c.red / 8 + (c.green / 8) * 32 + (c.blue / 8) * 1024) as u16
}

impl Color {
    pub fn new(red: u8, green: u8, blue: u8) -> (r: Self)
        ensures
            r.red == red,
            r.green == green,
            r.blue == blue,
    {
        Color { red, green, blue }
    }

    /// Expands a packed word to 8 bits per channel.
    pub fn from_u16(value: u16) -> (r: Self)
        ensures
            r == color_of_word(value),
    {
        let red = ((value % 32) * 8) as u8;
        let green = (((value / 32) % 32) * 8) as u8;
        let blue = (((value / 1024) % 32) * 8) as u8;
        Color { red, green, blue }
    }

    /// Packs the color to 5 bits per channel.
    pub fn into_u16(self) -> (r: u16)
        ensures
            r == word_of_color(self),
            r < 0x8000,
    {
        (self.red / 8) as u16 + ((self.green / 8) as u16) * 32 + ((self.blue / 8) as u16) * 1024
    }
}

/// Packing the expansion of a word gives the word back, less bit 15.
pub proof fn lemma_word_color_round_trip(w: u16)
    ensures
        word_of_color(color_of_word(w)) == w % 0x8000,
{
    assert(((w % 32) * 8) / 8 + ((((w / 32) % 32) * 8) / 8) * 32 + ((((w / 1024) % 32) * 8) / 8)
        * 1024 == w % 0x8000) by (bit_vector);
}

/// The gray whose three channels are `v`.
pub open spec fn gray(v: u8) -> Color {
    Color { red: v, green: v, blue: v }
}

/// An ordered list of colors.
#[derive(Clone, Debug)]
pub struct Palette {
    pub colors: Vec<Color>,
}

impl Palette {
    pub fn new(colors: Vec<Color>) -> (r: Self)
        ensures
            r.colors@ == colors@,
    {
        Palette { colors }
    }

    pub fn colors(&self) -> (r: &[Color])
        ensures
            r@ == self.colors@,
    {
        self.colors.as_slice()
    }

    /// A palette with the same colors.
    pub fn duplicate(&self) -> (r: Self)
        ensures
            r.colors@ == self.colors@,
    {
        let mut colors: Vec<Color> = Vec::new();
        let mut i: usize = 0;
        while i < self.colors.len()
            invariant
                i <= self.colors@.len(),
                colors@ == self.colors@.subrange(0, i as int),
            decreases self.colors@.len() - i,
        {
            colors.push(self.colors[i]);
            i = i + 1;
            assert(colors@ =~= self.colors@.subrange(0, i as int));
        }
        assert(self.colors@.subrange(0, i as int) =~= self.colors@);
        Palette { colors }
    }

    /// Sixteen evenly spaced grays: 0x00, 0x11, ..., 0xFF.
    pub fn gen_16_colors() -> (r: Self)
        ensures
            r.colors@.len() == 16,
            forall|i: int|
                0 <= i < 16 ==> #[trigger] r.colors@[i] == gray((i * 17) as u8),
    {
        let mut colors: Vec<Color> = Vec::new();
        let mut i: u16 = 0;
        while i < 16
            invariant
                i <= 16,
                colors@.len() == i,
                forall|j: int|
                    0 <= j < i ==> #[trigger] colors@[j] == gray((j * 17) as u8),
            decreases 16 - i,
        {
            let v = (i * 17) as u8;
            colors.push(Color { red: v, green: v, blue: v });
            i = i + 1;
        }
        Palette { colors }
    }

    /// All 256 grays in order.
    pub fn gen_256_colors() -> (r: Self)
        ensures
            r.colors@.len() == 256,
            forall|i: int|
                0 <= i < 256 ==> #[trigger] r.colors@[i] == gray(i as u8),
    {
        let mut colors: Vec<Color> = Vec::new();
        let mut i: u16 = 0;
        while i < 256
            invariant
                i <= 256,
                colors@.len() == i,
                forall|j: int|
                    0 <= j < i ==> #[trigger] colors@[j] == gray(j as u8),
            decreases 256 - i,
        {
            let v = i as u8;
            colors.push(Color { red: v, green: v, blue: v });
            i = i + 1;
        }
        Palette { colors }
    }
}

} // verus!

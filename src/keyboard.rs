use vstd::prelude::*;
use vstd::string::*;
use crate::codec::{
    Color, DecodeError, encode, decode_color, encoded, decodable, color_of, is_hex_char, all_hex,
    lemma_round_trip,
};
use crate::decimal::{parse_u8, format_u8, parsed_u8, trimmed, decimal_text, lemma_decimal_round_trip};

verus! {

/// The attribute files of the keyboard device.
#[derive(Clone, Copy, Debug, PartialEq, Eq, Structural)]
pub enum DeviceFile {
    /// `color_left`: `0x` and six lowercase hexadecimal digits.
    Color,
    /// `brightness`: a decimal number.
    Brightness,
}

/// Text to be written to one attribute file of the device.
#[derive(Clone, Debug)]
pub struct DeviceWrite {
    pub file: DeviceFile,
    pub text: String,
}

/// What an edit of the hexadecimal text led to.
#[derive(Clone, Debug)]
pub enum HexEdit {
    /// The text does not have the eight characters of a whole colour yet; nothing changed.
    Ignored,
    /// The six digits after the prefix could not be decoded; the channels are unchanged.
    Rejected(DecodeError),
    /// The channels were set from the text; the colour is to be written to the device.
    Write(DeviceWrite),
}

/// Why the state could not be read from the device.
#[derive(Clone, Copy, Debug, PartialEq, Eq, Structural)]
pub enum InitError {
    /// The brightness file does not hold a decimal number from 0 to 255.
    MalformedBrightness,
}

/// The colour used when the device reports one that cannot be decoded.
pub open spec fn white() -> Color {
    Color { red: 255, green: 255, blue: 255 }
}

/// The digits of the colour file that are decoded: an optional `0x` is skipped, and of the
/// rest at most the first six characters are taken.
pub open spec fn color_field(t: Seq<char>) -> Seq<char> {
    let body = if t.len() >= 2 && t[0] == '0' && t[1] == 'x' {
        t.skip(2)
    } else {
        t
    };
    if body.len() >= 6 {
        body.take(6)
    } else {
        body
    }
}

/// The colour file holds a readable colour.
pub open spec fn color_readable(t: Seq<char>) -> bool {
    decodable(color_field(t)) && color_field(t).len() >= 6
}

/// The colour that the device state starts with, given the colour file's contents.
pub open spec fn initial_color(t: Seq<char>) -> Color {
    if color_readable(t) {
        color_of(color_field(t))
    } else {
        white()
    }
}

/// The six digits of an eight-character hexadecimal entry.
pub open spec fn entry_digits(s: Seq<char>) -> Seq<char> {
    s.subrange(2, 8)
}

/// The device state as first read, and why its colour was not usable, if it was not.
#[derive(Debug)]
pub struct Startup {
    pub state: KeyboardState,
    pub color_error: Option<DecodeError>,
}

/// The in-memory state of the keyboard backlight: colour, brightness, and the hexadecimal
/// text shown for the colour.
#[derive(Clone, Debug)]
pub struct KeyboardState {
    pub hex: String,
    pub red: u8,
    pub green: u8,
    pub blue: u8,
    pub brightness: u8,
}

/// What the state writes to the device is read back unchanged when the state is built from
/// the device's files: a colour written by `set_color` and a brightness written by
/// `set_brightness`.
pub proof fn lemma_device_round_trip(c: Color, b: u8)
    ensures
        color_readable(encoded(c)),
        initial_color(encoded(c)) == c,
        parsed_u8(trimmed(decimal_text(b as nat))) == Some(b),
{
    lemma_round_trip(c);
    assert(color_field(encoded(c)) =~= encoded(c).skip(2));
    lemma_decimal_round_trip(b);
}

impl KeyboardState {
    /// The colour held by the three channels.
    pub open spec fn color(&self) -> Color {
        Color { red: self.red, green: self.green, blue: self.blue }
    }

    /// Builds the state from the contents of the colour and brightness files. A colour that
    /// cannot be decoded falls back to white and is reported in `color_error`; a brightness
    /// that is not a byte in decimal is an error.
    pub fn from_device(color_text: &str, brightness_text: &str) -> (r: Result<Startup, InitError>)
        ensures
            r is Ok <==> parsed_u8(trimmed(brightness_text@)) is Some,
            r is Err ==> r == Err::<Startup, InitError>(InitError::MalformedBrightness),
            r matches Ok(st) ==> {
                &&& st.state.color() == initial_color(color_text@)
                &&& st.state.hex@ == encoded(st.state.color())
                &&& Some(st.state.brightness) == parsed_u8(trimmed(brightness_text@))
                &&& (st.color_error is None <==> color_readable(color_text@))
                &&& (st.color_error == Some(DecodeError::OddLength) <==> color_field(color_text@).len()
                    % 2 == 1)
                &&& (st.color_error == Some(DecodeError::TooShort) <==> decodable(
                    color_field(color_text@),
                ) && color_field(color_text@).len() < 6)
                &&& (st.color_error matches Some(DecodeError::InvalidDigit(i)) ==> i < color_field(
                    color_text@,
                ).len() && !is_hex_char(
                    color_field(color_text@)[i as int],
                ) && all_hex(color_field(color_text@).take(i as int)))
            },
    {
        let n = color_text.unicode_len();
        let start: usize = if n >= 2 && color_text.get_char(0) == '0' && color_text.get_char(1)
            == 'x' {
            2
        } else {
            0
        };
        let end: usize = if n - start >= 6 {
            start + 6
        } else {
            n
        };
        let field = color_text.substring_char(start, end);
        proof {
            let t = color_text@;
            let body = if start == 2 {
                t.skip(2)
            } else {
                t
            };
            assert(start == 2 <==> (t.len() >= 2 && t[0] == '0' && t[1] == 'x'));
            if body.len() >= 6 {
                assert(field@ =~= body.take(6));
            } else {
                assert(field@ =~= body);
            }
            assert(field@ == color_field(t));
        }
        let (color, color_error) = match decode_color(field) {
            Ok(c) => (c, None),
            Err(e) => (Color { red: 255, green: 255, blue: 255 }, Some(e)),
        };
        let brightness = match parse_u8(brightness_text) {
            Some(b) => b,
            None => {
                return Err(InitError::MalformedBrightness);
            },
        };
        let state = KeyboardState {
            hex: encode(color),
            red: color.red,
            green: color.green,
            blue: color.blue,
            brightness,
        };
        Ok(Startup { state, color_error })
    }

    /// Sets the three channels and returns the colour's text, to be written to the colour file.
    /// The hexadecimal text is left as it is until `color_written` reports the outcome.
    pub fn set_color(&mut self, red: u8, green: u8, blue: u8) -> (w: DeviceWrite)
        ensures
            final(self).color() == (Color { red, green, blue }),
            final(self).hex == old(self).hex,
            final(self).brightness == old(self).brightness,
            w.file == DeviceFile::Color,
            w.text@ == encoded(Color { red, green, blue }),
    {
        self.red = red;
        self.green = green;
        self.blue = blue;
        DeviceWrite { file: DeviceFile::Color, text: encode(Color { red, green, blue }) }
    }

    /// Takes the outcome of writing the colour to the device. After a successful write the
    /// hexadecimal text shows the current colour; after a failed one it keeps showing the last
    /// colour written.
    pub fn color_written(&mut self, ok: bool)
        ensures
            final(self).color() == old(self).color(),
            final(self).brightness == old(self).brightness,
            ok ==> final(self).hex@ == encoded(old(self).color()),
            !ok ==> final(self).hex == old(self).hex,
    {
        if ok {
            self.hex = encode(Color { red: self.red, green: self.green, blue: self.blue });
        }
    }

    /// Sets the brightness and returns its decimal text, to be written to the brightness file.
    /// The new brightness is kept whatever the outcome of that write.
    pub fn set_brightness(&mut self, value: u8) -> (w: DeviceWrite)
        ensures
            final(self).brightness == value,
            final(self).color() == old(self).color(),
            final(self).hex == old(self).hex,
            w.file == DeviceFile::Brightness,
            w.text@ == decimal_text(value as nat),
    {
        self.brightness = value;
        DeviceWrite { file: DeviceFile::Brightness, text: format_u8(value) }
    }

    /// Takes an edit of the hexadecimal text. Text that is not eight characters long is an
    /// edit in progress and changes nothing. Otherwise the text is kept, and the six
    /// characters after its first two are decoded: on success the channels take that colour,
    /// which is returned to be written to the colour file; on failure the channels stay.
    pub fn set_from_hex(&mut self, input: &str) -> (r: HexEdit)
        ensures
            input@.len() != 8 ==> r is Ignored && *final(self) == *old(self),
            input@.len() == 8 ==> {
                &&& final(self).hex@ == input@
                &&& final(self).brightness == old(self).brightness
                &&& decodable(entry_digits(input@)) ==> {
                    &&& final(self).color() == color_of(entry_digits(input@))
                    &&& r matches HexEdit::Write(w)
                    &&& w.file == DeviceFile::Color
                    &&& w.text@ == encoded(color_of(entry_digits(input@)))
                }
                &&& !decodable(entry_digits(input@)) ==> {
                    &&& final(self).color() == old(self).color()
                    &&& r matches HexEdit::Rejected(DecodeError::InvalidDigit(i))
                    &&& i < 6
                    &&& !is_hex_char(entry_digits(input@)[i as int])
                    &&& all_hex(entry_digits(input@).take(i as int))
                }
            },
    {
        let n = input.unicode_len();
        if n != 8 {
            return HexEdit::Ignored;
        }
        self.hex = input.to_owned();
        let digits = input.substring_char(2, 8);
        match decode_color(digits) {
            Ok(c) => HexEdit::Write(self.set_color(c.red, c.green, c.blue)),
            Err(e) => HexEdit::Rejected(e),
        }
    }
}

} // verus!

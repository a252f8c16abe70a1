//! The colour sensor and the formats of its raw data.

use vstd::prelude::*;
use vstd::string::*;
use crate::attribute::Attribute;
use crate::driver::Driver;
use crate::error::{Ev3Error, Ev3Result};
use crate::text::{bounded_value, count_value, parse_count, parse_int, trimmed};

verus! {

/// How the values in a block of raw sensor data are laid out.
#[derive(Debug, Clone, Copy, PartialEq, Eq, Structural)]
pub enum BinDataFormat {
    /// Unsigned 8-bit integer
    U8,
    /// Signed 8-bit integer
    S8,
    /// Unsigned 16-bit integer
    U16,
    /// Signed 16-bit integer
    S16,
    /// Signed 16-bit integer, big endian
    S16Be,
    /// Signed 32-bit integer
    S32,
    /// IEEE 754 32-bit floating point
    Float,
}

/// The format that a name stands for, if it is the name of a format.
pub open spec fn format_of_name(name: Seq<char>) -> Option<BinDataFormat> {
    if name == "u8"@ {
        Some(BinDataFormat::U8)
    } else if name == "s8"@ {
        Some(BinDataFormat::S8)
    } else if name == "u16"@ {
        Some(BinDataFormat::U16)
    } else if name == "s16"@ {
        Some(BinDataFormat::S16)
    } else if name == "s16_be"@ {
        Some(BinDataFormat::S16Be)
    } else if name == "s32"@ {
        Some(BinDataFormat::S32)
    } else if name == "float"@ {
        Some(BinDataFormat::Float)
    } else {
        None
    }
}

/// Whether a string is the given name.
fn is_name(text: &String, name: &str) -> (same: bool)
    ensures
        same == (text@ == name@),
{
    *text == String::from_str(name)
}

impl BinDataFormat {
    /// The number of bytes that one value takes.
    pub open spec fn width(&self) -> int {
        match *self {
            BinDataFormat::U8 => 1,
            BinDataFormat::S8 => 1,
            BinDataFormat::U16 => 2,
            BinDataFormat::S16 => 2,
            BinDataFormat::S16Be => 2,
            BinDataFormat::S32 => 4,
            BinDataFormat::Float => 4,
        }
    }

    /// The number of bytes that one value takes.
    pub fn size(&self) -> (size: u8)
        ensures
            size == self.width(),
    {
        match self {
            BinDataFormat::U8 => 1,
            BinDataFormat::S8 => 1,
            BinDataFormat::U16 => 2,
            BinDataFormat::S16 => 2,
            BinDataFormat::S16Be => 2,
            BinDataFormat::S32 => 4,
            BinDataFormat::Float => 4,
        }
    }

    /// The format that `name` stands for. A name of no format is a parse error.
    pub fn from_name(name: &str) -> (r: Ev3Result<BinDataFormat>)
        ensures
            match format_of_name(name@) {
                Some(f) => r == Ok::<BinDataFormat, Ev3Error>(f),
                None => r == Err::<BinDataFormat, Ev3Error>(Ev3Error::Parse),
            },
    {
        let text = name.to_owned();
        if is_name(&text, "u8") {
            Ok(BinDataFormat::U8)
        } else if is_name(&text, "s8") {
            Ok(BinDataFormat::S8)
        } else if is_name(&text, "u16") {
            Ok(BinDataFormat::U16)
        } else if is_name(&text, "s16") {
            Ok(BinDataFormat::S16)
        } else if is_name(&text, "s16_be") {
            Ok(BinDataFormat::S16Be)
        } else if is_name(&text, "s32") {
            Ok(BinDataFormat::S32)
        } else if is_name(&text, "float") {
            Ok(BinDataFormat::Float)
        } else {
            Err(Ev3Error::Parse)
        }
    }
}

/// The signed 16-bit value whose little-endian bytes are `low` and `high`.
pub open spec fn word_value(low: u8, high: u8) -> int {
    let unsigned = low + 256 * high;
    if unsigned >= 32768 {
        unsigned - 65536
    } else {
        unsigned
    }
}

/// The signed 16-bit value whose little-endian bytes are `low` and `high`.
pub fn word_from_bytes(low: u8, high: u8) -> (word: i16)
    ensures
        word == word_value(low, high),
{
    let unsigned: u16 = (low as u16) + 256 * (high as u16);
    if unsigned >= 32768 {
        ((unsigned as i32) - 65536) as i16
    } else {
        unsigned as i16
    }
}

/// Decodes a block of raw data as signed little-endian 16-bit values: one
/// value for each complete pair of bytes, in order. A last odd byte is left out.
pub fn decode_words(data: &[u8]) -> (values: Vec<i16>)
    ensures
        values@.len() == data@.len() / 2,
        forall|k: int|
            0 <= k < values@.len() ==> #[trigger] values@[k] == word_value(
                data@[2 * k],
                data@[2 * k + 1],
            ),
{
    let mut values: Vec<i16> = Vec::new();
    let count: usize = data.len() / 2;
    let mut k: usize = 0;
    while k < count
        invariant
            count == data@.len() / 2,
            data@.len() <= usize::MAX,
            k <= count,
            values@.len() == k,
            forall|j: int|
                0 <= j < k ==> #[trigger] values@[j] == word_value(data@[2 * j], data@[2 * j + 1]),
        decreases count - k,
    {
        assert(2 * k + 1 < data@.len());
        values.push(word_from_bytes(data[2 * k], data[2 * k + 1]));
        k += 1;
    }
    values
}

/// What a block of raw data gives once the number of values and the format
/// are known: the first three 16-bit values of a block of at least eight
/// bytes in the format `S16`.
pub open spec fn bin_data_reading(
    num_values: Option<u8>,
    format: Option<BinDataFormat>,
    data: Seq<u8>,
) -> Ev3Result<(i16, i16, i16)> {
    if num_values is None || format is None {
        Err(Ev3Error::Parse)
    } else if format != Some(BinDataFormat::S16) {
        Err(Ev3Error::UnsupportedFormat)
    } else if data.len() < 8 {
        Err(Ev3Error::Parse)
    } else {
        Ok(
            (
                word_value(data[0], data[1]) as i16,
                word_value(data[2], data[3]) as i16,
                word_value(data[4], data[5]) as i16,
            ),
        )
    }
}

/// The colour sensor: a device, and what it has learnt of its raw data.
pub struct ColorSensor {
    driver: Driver,
    num_values: Option<u8>,
    bin_format: Option<BinDataFormat>,
}

impl ColorSensor {
    /// The device behind the sensor.
    pub closed spec fn driver(&self) -> Driver {
        self.driver
    }

    /// The number of values of the current mode, once it was read.
    pub closed spec fn known_num_values(&self) -> Option<u8> {
        self.num_values
    }

    /// The format of the raw data, once it was read.
    pub closed spec fn known_bin_format(&self) -> Option<BinDataFormat> {
        self.bin_format
    }

    /// A sensor on the device `driver` that knows nothing of its raw data yet.
    pub fn new(driver: Driver) -> (sensor: ColorSensor)
        ensures
            sensor.driver() == driver,
            sensor.known_num_values() is None,
            sensor.known_bin_format() is None,
    {
        ColorSensor { driver, num_values: None, bin_format: None }
    }

    /// The number of values of the current mode, once it was read.
    pub fn num_values(&self) -> (known: Option<u8>)
        ensures
            known == self.known_num_values(),
    {
        self.num_values
    }

    /// The format of the raw data, once it was read.
    pub fn bin_format(&self) -> (known: Option<BinDataFormat>)
        ensures
            known == self.known_bin_format(),
    {
        self.bin_format
    }

    /// The device behind the sensor.
    pub fn device(&self) -> (device: &Driver)
        ensures
            *device == self.driver(),
    {
        &self.driver
    }

    /// The handle of an attribute of the sensor's device, cached by its driver.
    pub fn get_attribute(&mut self, attribute_name: &str) -> (handle: Attribute)
        requires
            old(self).driver().well_formed(),
        ensures
            final(self).driver().well_formed(),
            final(self).driver().root_text() == old(self).driver().root_text(),
            final(self).driver().class_text() == old(self).driver().class_text(),
            final(self).driver().name_text() == old(self).driver().name_text(),
            handle@ == old(self).driver().path_of(attribute_name@),
            final(self).driver().cached_names() == crate::driver::after_lookup(
                old(self).driver().cached_names(),
                attribute_name@,
            ),
            final(self).known_num_values() == old(self).known_num_values(),
            final(self).known_bin_format() == old(self).known_bin_format(),
    {
        self.driver.get_attribute(attribute_name)
    }

    /// The handle of an attribute of the sensor's device where its file was
    /// reached. Where it was not, there is no handle and the sensor stays as
    /// it is.
    pub fn get_attribute_if_reached(&mut self, attribute_name: &str, reached: bool) -> (r: Option<
        Attribute,
    >)
        requires
            old(self).driver().well_formed(),
        ensures
            final(self).driver().well_formed(),
            !reached ==> r is None && *final(self) == *old(self),
            reached ==> {
                &&& r is Some
                &&& r->Some_0@ == old(self).driver().path_of(attribute_name@)
                &&& final(self).driver().root_text() == old(self).driver().root_text()
                &&& final(self).driver().class_text() == old(self).driver().class_text()
                &&& final(self).driver().name_text() == old(self).driver().name_text()
                &&& final(self).driver().cached_names() == crate::driver::after_lookup(
                    old(self).driver().cached_names(),
                    attribute_name@,
                )
                &&& final(self).known_num_values() == old(self).known_num_values()
                &&& final(self).known_bin_format() == old(self).known_bin_format()
            },
    {
        self.driver.get_attribute_if_reached(attribute_name, reached)
    }

    /// The attribute that holds the colour value.
    pub fn color_attribute() -> (attribute_name: &'static str)
        ensures
            attribute_name@ == "value0"@,
    {
        "value0"
    }

    /// The attribute that holds the red component.
    pub fn red_attribute() -> (attribute_name: &'static str)
        ensures
            attribute_name@ == "value0"@,
    {
        "value0"
    }

    /// The attribute that holds the green component.
    pub fn green_attribute() -> (attribute_name: &'static str)
        ensures
            attribute_name@ == "value1"@,
    {
        "value1"
    }

    /// The attribute that holds the blue component.
    pub fn blue_attribute() -> (attribute_name: &'static str)
        ensures
            attribute_name@ == "value2"@,
    {
        "value2"
    }

    /// The attribute that holds the number of values of the current mode.
    pub fn num_values_attribute() -> (attribute_name: &'static str)
        ensures
            attribute_name@ == "num_values"@,
    {
        "num_values"
    }

    /// The attribute that holds the name of the format of the raw data.
    pub fn bin_data_format_attribute() -> (attribute_name: &'static str)
        ensures
            attribute_name@ == "bin_data_format"@,
    {
        "bin_data_format"
    }

    /// The attribute that holds the block of raw data.
    pub fn bin_data_attribute() -> (attribute_name: &'static str)
        ensures
            attribute_name@ == "bin_data"@,
    {
        "bin_data"
    }

    /// The colour value in the modes that report one, from the content of
    /// the attribute that `color_attribute` names.
    pub fn get_color(&self, value0: &[u8]) -> (r: Ev3Result<i32>)
        ensures
            r == int_reading(value0@),
    {
        parse_int(value0)
    }

    /// The red component of the detected colour, from the content of the
    /// attribute that `red_attribute` names.
    pub fn get_red(&self, value0: &[u8]) -> (r: Ev3Result<i32>)
        ensures
            r == int_reading(value0@),
    {
        parse_int(value0)
    }

    /// The green component of the detected colour, from the content of the
    /// attribute that `green_attribute` names.
    pub fn get_green(&self, value1: &[u8]) -> (r: Ev3Result<i32>)
        ensures
            r == int_reading(value1@),
    {
        parse_int(value1)
    }

    /// The blue component of the detected colour, from the content of the
    /// attribute that `blue_attribute` names.
    pub fn get_blue(&self, value2: &[u8]) -> (r: Ev3Result<i32>)
        ensures
            r == int_reading(value2@),
    {
        parse_int(value2)
    }

    /// The red, green and blue components of the detected colour, from the
    /// contents of `value0`, `value1` and `value2`.
    pub fn get_rgb(&self, value0: &[u8], value1: &[u8], value2: &[u8]) -> (r: Ev3Result<
        (i32, i32, i32),
    >)
        ensures
            r == match (int_reading(value0@), int_reading(value1@), int_reading(value2@)) {
                (Ok(red), Ok(green), Ok(blue)) => Ok::<(i32, i32, i32), Ev3Error>(
                    (red, green, blue),
                ),
                _ => Err::<(i32, i32, i32), Ev3Error>(Ev3Error::Parse),
            },
    {
        let red = match self.get_red(value0) {
            Ok(v) => v,
            Err(_) => {
                return Err(Ev3Error::Parse);
            },
        };
        let green = match self.get_green(value1) {
            Ok(v) => v,
            Err(_) => {
                return Err(Ev3Error::Parse);
            },
        };
        let blue = match self.get_blue(value2) {
            Ok(v) => v,
            Err(_) => {
                return Err(Ev3Error::Parse);
            },
        };
        Ok((red, green, blue))
    }

    /// The first three raw values of the sensor.
    ///
    /// `num_values`, `bin_data_format` and `bin_data` are the contents of the
    /// attributes that `num_values_attribute`, `bin_data_format_attribute`
    /// and `bin_data_attribute` name. The first two count only while the sensor
    /// does not know them yet, and it keeps what it learns from them. The
    /// format must be `S16`, and the block must hold eight bytes or more.
    pub fn get_bin_data(&mut self, num_values: &[u8], bin_data_format: &str, bin_data: &[u8]) -> (r:
        Ev3Result<(i16, i16, i16)>)
        ensures
            final(self).driver() == old(self).driver(),
            final(self).known_num_values() == match old(self).known_num_values() {
                Some(n) => Some(n),
                None => count_value(trimmed(num_values@)),
            },
            final(self).known_bin_format() == match old(self).known_bin_format() {
                Some(f) => Some(f),
                None => if final(self).known_num_values() is None {
                    None
                } else {
                    format_of_name(bin_data_format@)
                },
            },
            r == bin_data_reading(
                final(self).known_num_values(),
                final(self).known_bin_format(),
                bin_data@,
            ),
    {
        if self.num_values.is_none() {
            match parse_count(num_values) {
                Ok(n) => {
                    self.num_values = Some(n);
                },
                Err(_) => {
                    return Err(Ev3Error::Parse);
                },
            }
        }
        let format = match self.bin_format {
            Some(f) => f,
            None => match BinDataFormat::from_name(bin_data_format) {
                Ok(f) => {
                    self.bin_format = Some(f);
                    f
                },
                Err(_) => {
                    return Err(Ev3Error::Parse);
                },
            },
        };
        match format {
            BinDataFormat::S16 => {},
            _ => {
                return Err(Ev3Error::UnsupportedFormat);
            },
        }
        if bin_data.len() < 8 {
            return Err(Ev3Error::Parse);
        }
        let values = decode_words(bin_data);
        assert(values@[0] == word_value(bin_data@[0], bin_data@[1]));
        assert(values@[1] == word_value(bin_data@[2], bin_data@[3]));
        assert(values@[2] == word_value(bin_data@[4], bin_data@[5]));
        Ok((values[0], values[1], values[2]))
    }
}

/// What the content of an attribute gives when it is read as a signed integer.
pub open spec fn int_reading(content: Seq<u8>) -> Ev3Result<i32> {
    match bounded_value(trimmed(content), i32::MIN as int, i32::MAX as int) {
        Some(v) => Ok(v as i32),
        None => Err(Ev3Error::Parse),
    }
}

} // verus!

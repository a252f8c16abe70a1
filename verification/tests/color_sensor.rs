use ev3dev_lang_rust::attribute::DRIVER_PATH;
use ev3dev_lang_rust::driver::Driver;
use ev3dev_lang_rust::error::Ev3Error;
use ev3dev_lang_rust::sensors::color_sensor::{decode_words, word_from_bytes, BinDataFormat};
use ev3dev_lang_rust::sensors::{ColorSensor, SensorPort};

#[test]
fn sensor_ports_have_their_addresses() {
    assert_eq!(SensorPort::In1.address(), "in1");
    assert_eq!(SensorPort::In2.address(), "in2");
    assert_eq!(SensorPort::In3.address(), "in3");
    assert_eq!(SensorPort::In4.address(), "in4");
}

#[test]
fn each_format_has_its_width() {
    assert_eq!(BinDataFormat::U8.size(), 1);
    assert_eq!(BinDataFormat::S8.size(), 1);
    assert_eq!(BinDataFormat::U16.size(), 2);
    assert_eq!(BinDataFormat::S16.size(), 2);
    assert_eq!(BinDataFormat::S16Be.size(), 2);
    assert_eq!(BinDataFormat::S32.size(), 4);
    assert_eq!(BinDataFormat::Float.size(), 4);
}

#[test]
fn formats_are_read_from_their_names() {
    assert_eq!(BinDataFormat::from_name("u8"), Ok(BinDataFormat::U8));
    assert_eq!(BinDataFormat::from_name("s8"), Ok(BinDataFormat::S8));
    assert_eq!(BinDataFormat::from_name("u16"), Ok(BinDataFormat::U16));
    assert_eq!(BinDataFormat::from_name("s16"), Ok(BinDataFormat::S16));
    assert_eq!(BinDataFormat::from_name("s16_be"), Ok(BinDataFormat::S16Be));
    assert_eq!(BinDataFormat::from_name("s32"), Ok(BinDataFormat::S32));
    assert_eq!(BinDataFormat::from_name("float"), Ok(BinDataFormat::Float));
}

#[test]
fn unknown_format_name_is_a_parse_error() {
    assert_eq!(BinDataFormat::from_name("s32_be"), Err(Ev3Error::Parse));
    assert_eq!(BinDataFormat::from_name("S16"), Err(Ev3Error::Parse));
    assert_eq!(BinDataFormat::from_name("s16\n"), Err(Ev3Error::Parse));
    assert_eq!(BinDataFormat::from_name(""), Err(Ev3Error::Parse));
}

#[test]
fn words_are_little_endian_and_signed() {
    assert_eq!(word_from_bytes(0x34, 0x12), 0x1234);
    assert_eq!(word_from_bytes(0xff, 0xff), -1);
    assert_eq!(word_from_bytes(0x00, 0x80), i16::MIN);
    assert_eq!(word_from_bytes(0xff, 0x7f), i16::MAX);
    assert_eq!(word_from_bytes(0, 0), 0);
    for (low, high) in [(1u8, 2u8), (200, 100), (100, 200), (255, 0), (0, 255)] {
        assert_eq!(word_from_bytes(low, high), i16::from_le_bytes([low, high]));
    }
}

#[test]
fn blocks_decode_to_their_complete_words() {
    assert_eq!(decode_words(&[1, 0, 2, 0, 0xfe, 0xff, 4, 0]), vec![1, 2, -2, 4]);
    assert_eq!(decode_words(&[1, 0, 2]), vec![1]);
    assert_eq!(decode_words(&[1]), Vec::<i16>::new());
    assert_eq!(decode_words(&[]), Vec::<i16>::new());
}

#[test]
fn eight_bytes_of_s16_give_the_first_three_words() {
    let mut sensor = ColorSensor::new(Driver::new(DRIVER_PATH, "lego-sensor", "sensor0"));
    let data = [0x10, 0x00, 0x00, 0x01, 0xff, 0xff, 0x7b, 0x00];
    assert_eq!(sensor.get_bin_data(b"4\n", "s16", &data), Ok((16, 256, -1)));
    assert_eq!(sensor.num_values(), Some(4));
    assert_eq!(sensor.bin_format(), Some(BinDataFormat::S16));
}

#[test]
fn sensor_keeps_what_it_learnt_of_its_data() {
    let mut sensor = ColorSensor::new(Driver::new(DRIVER_PATH, "lego-sensor", "sensor0"));
    assert_eq!(sensor.num_values(), None);
    assert_eq!(sensor.bin_format(), None);
    let data = [1, 0, 2, 0, 3, 0, 4, 0, 5, 0];
    assert_eq!(sensor.get_bin_data(b"4\n", "s16", &data), Ok((1, 2, 3)));
    assert_eq!(sensor.get_bin_data(b"none", "float", &data), Ok((1, 2, 3)));
    assert_eq!(sensor.num_values(), Some(4));
    assert_eq!(sensor.bin_format(), Some(BinDataFormat::S16));
}

#[test]
fn other_formats_are_not_decoded() {
    let data = [1, 0, 2, 0, 3, 0, 4, 0];
    for name in ["u8", "s8", "u16", "s16_be", "s32", "float"] {
        let mut sensor = ColorSensor::new(Driver::new(DRIVER_PATH, "lego-sensor", "sensor0"));
        assert_eq!(sensor.get_bin_data(b"1", name, &data), Err(Ev3Error::UnsupportedFormat));
        assert_eq!(sensor.get_bin_data(b"1", "s16", &data), Err(Ev3Error::UnsupportedFormat));
    }
}

#[test]
fn unreadable_count_or_format_is_a_parse_error() {
    let data = [1, 0, 2, 0, 3, 0, 4, 0];
    let mut sensor = ColorSensor::new(Driver::new(DRIVER_PATH, "lego-sensor", "sensor0"));
    assert_eq!(sensor.get_bin_data(b"many", "s16", &data), Err(Ev3Error::Parse));
    assert_eq!(sensor.num_values(), None);
    assert_eq!(sensor.bin_format(), None);
    assert_eq!(sensor.get_bin_data(b"3", "s17", &data), Err(Ev3Error::Parse));
    assert_eq!(sensor.num_values(), Some(3));
    assert_eq!(sensor.bin_format(), None);
    assert_eq!(sensor.get_bin_data(b"", "s16", &data), Ok((1, 2, 3)));
}

#[test]
fn short_block_is_a_parse_error() {
    let mut sensor = ColorSensor::new(Driver::new(DRIVER_PATH, "lego-sensor", "sensor0"));
    assert_eq!(sensor.get_bin_data(b"3", "s16", &[1, 0, 2, 0, 3, 0, 4]), Err(Ev3Error::Parse));
    assert_eq!(sensor.get_bin_data(b"3", "s16", &[]), Err(Ev3Error::Parse));
}

#[test]
fn colour_components_are_read_as_integers() {
    let sensor = ColorSensor::new(Driver::new(DRIVER_PATH, "lego-sensor", "sensor0"));
    assert_eq!(sensor.get_color(b"5\n"), Ok(5));
    assert_eq!(sensor.get_red(b"1020\n"), Ok(1020));
    assert_eq!(sensor.get_green(b"0\n"), Ok(0));
    assert_eq!(sensor.get_blue(b"17"), Ok(17));
    assert_eq!(sensor.get_color(b"red\n"), Err(Ev3Error::Parse));
    assert_eq!(sensor.get_rgb(b"10\n", b"20\n", b"30\n"), Ok((10, 20, 30)));
    assert_eq!(sensor.get_rgb(b"10\n", b"\n", b"30\n"), Err(Ev3Error::Parse));
    assert_eq!(sensor.get_rgb(b"x", b"20", b"30"), Err(Ev3Error::Parse));
    assert_eq!(sensor.get_rgb(b"10", b"20", b"3 0"), Err(Ev3Error::Parse));
}

#[test]
fn sensor_attributes_are_cached_by_its_driver() {
    let mut sensor = ColorSensor::new(Driver::new(DRIVER_PATH, "lego-sensor", "sensor2"));
    let first = sensor.get_attribute("bin_data");
    let second = sensor.get_attribute("bin_data");
    assert_eq!(first.path(), "/sys/class/lego-sensor/sensor2/bin_data");
    assert_eq!(first, second);
    assert_eq!(sensor.device().resolved_count(), 1);
    assert_eq!(sensor.device().name(), "sensor2");
}

#[test]
fn each_colour_accessor_has_its_attribute() {
    assert_eq!(ColorSensor::color_attribute(), "value0");
    assert_eq!(ColorSensor::red_attribute(), "value0");
    assert_eq!(ColorSensor::green_attribute(), "value1");
    assert_eq!(ColorSensor::blue_attribute(), "value2");
    assert_eq!(ColorSensor::num_values_attribute(), "num_values");
    assert_eq!(ColorSensor::bin_data_format_attribute(), "bin_data_format");
    assert_eq!(ColorSensor::bin_data_attribute(), "bin_data");
}

#[test]
fn sensor_does_not_cache_an_unreached_attribute() {
    let mut sensor = ColorSensor::new(Driver::new(DRIVER_PATH, "lego-sensor", "sensor2"));
    assert_eq!(sensor.get_attribute_if_reached("value0", false), None);
    assert_eq!(sensor.device().resolved_count(), 0);
    let handle = sensor.get_attribute_if_reached("value0", true);
    assert_eq!(
        handle.map(|h| h.path().clone()),
        Some("/sys/class/lego-sensor/sensor2/value0".to_owned())
    );
    assert_eq!(sensor.device().resolved_count(), 1);
    assert_eq!(sensor.num_values(), None);
    assert_eq!(sensor.bin_format(), None);
}

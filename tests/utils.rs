use httpstat::{format_bytes, format_duration, format_number};

fn assert_duration(exp: &str, input: u64) {
    assert_eq!(exp, format_duration(input).as_str());
}

fn assert_bytes(exp: &str, input: u64) {
    assert_eq!(exp, format_bytes(input).as_str());
}

fn assert_number(exp: &str, input: u64) {
    assert_eq!(exp, format_number(input).as_str());
}

#[test]
fn utils_test_format_duration() {
    assert_duration("0s", 0);
    assert_duration("0.009s", 9);
    assert_duration("0.09s", 90);
    assert_duration("0.9s", 900);
    assert_duration("0.999s", 999);
    assert_duration("1s", 1000);
    assert_duration("1s", 1009);
    assert_duration("1.4s", 1400);
    assert_duration("1.6s", 1600);
    assert_duration("59s", 59000);
    assert_duration("1m", 60000);
    assert_duration("1.5m", 90000);
    assert_duration("1h", 60 * 60 * 1000);
    assert_duration("1.5h", 90 * 60 * 1000);
    assert_duration("10h", 10 * 60 * 60 * 1000);
    assert_duration("1d", 24 * 60 * 60 * 1000);
    assert_duration("1.5d", 36 * 60 * 60 * 1000);
}

#[test]
fn utils_test_format_bytes() {
    assert_bytes("0", 0);
    assert_bytes("9", 9);
    assert_bytes("90", 90);
    assert_bytes("900", 900);
    assert_bytes("1000", 1000);
    assert_bytes("1K", 1024);
    assert_bytes("2K", 2048);
    assert_bytes("4K", 4096);
    assert_bytes("4K", 4608);
    assert_bytes("5K", 4609);
    assert_bytes("1M", 1024 * 1024);
    assert_bytes("1G", 1024 * 1024 * 1024);
    assert_bytes("1T", 1024 * 1024 * 1024 * 1024);
    assert_bytes("1024T", 1024 * 1024 * 1024 * 1024 * 1024);
}

#[test]
fn test_format_number() {
    assert_number("0", 0);
    assert_number("9", 9);
    assert_number("90", 90);
    assert_number("900", 900);
    assert_number("1K", 1000);
    assert_number("2K", 2000);
    assert_number("4K", 4000);
    assert_number("4K", 4500);
    assert_number("5K", 4501);
    assert_number("1M", 1000 * 1000);
    assert_number("1G", 1000 * 1000 * 1000);
    assert_number("1T", 1000 * 1000 * 1000 * 1000);
    assert_number("1000T", 1000 * 1000 * 1000 * 1000 * 1000);
}

#[test]
fn stats_test_format_duration() {
    assert_eq!("0s", format_duration(0));
    assert_eq!("0.009s", format_duration(9));
    assert_eq!("0.09s", format_duration(90));
    assert_eq!("0.9s", format_duration(900));
    assert_eq!("0.999s", format_duration(999));
    assert_eq!("1s", format_duration(1000));
    assert_eq!("1s", format_duration(1009));
    assert_eq!("1.4s", format_duration(1400));
    assert_eq!("1.6s", format_duration(1600));
    assert_eq!("59s", format_duration(59000));
    assert_eq!("1m", format_duration(60000));
    assert_eq!("1.5m", format_duration(90000));
    assert_eq!("1h", format_duration(60 * 60 * 1000));
    assert_eq!("1.5h", format_duration(90 * 60 * 1000));
    assert_eq!("10h", format_duration(10 * 60 * 60 * 1000));
}

#[test]
fn stats_test_format_bytes() {
    assert_eq!("0", format_bytes(0));
    assert_eq!("9", format_bytes(9));
    assert_eq!("90", format_bytes(90));
    assert_eq!("900", format_bytes(900));
    assert_eq!("1000", format_bytes(1000));
    assert_eq!("1K", format_bytes(1024));
    assert_eq!("2K", format_bytes(2048));
    assert_eq!("4K", format_bytes(4096));
    assert_eq!("1M", format_bytes(1024 * 1024));
    assert_eq!("1G", format_bytes(1024 * 1024 * 1024));
    // Units go on to "T", so this is one terabyte rather than 1024 gigabytes.
    assert_eq!("1T", format_bytes(1024 * 1024 * 1024 * 1024));
}

#[test]
fn duration_rounds_down_to_tenths_and_days() {
    assert_eq!("1.9s", format_duration(1999));
    assert_eq!("59.9s", format_duration(59999));
    assert_eq!("59.9m", format_duration(3599999));
    assert_eq!("23.9h", format_duration(86399999));
    assert_eq!("2.1d", format_duration(2 * 86400000 + 9000000));
    assert_eq!("0.01s", format_duration(10));
    assert_eq!("0.1s", format_duration(100));
}

#[test]
fn bytes_and_numbers_at_the_extremes() {
    assert_eq!("1023", format_bytes(1023));
    assert_eq!("999", format_number(999));
    assert_eq!("16777216T", format_bytes(u64::MAX));
    assert_eq!("18446744T", format_number(u64::MAX));
    assert_eq!("2K", format_bytes(1024 + 513));
    assert_eq!("1K", format_bytes(1024 + 512));
}

use rbn_lib::packet::{parse, parse_bytes, parse_at, Decimal, RbnPacket};

const SAMPLE: &str = "DX de K1ABC-#:    14025.0  W2XYZ        CW     15 dB    25 WPM  CQ CQ CQ                       1234Z\n";

fn spot(spotter: &str, spotted: &str) -> RbnPacket {
    RbnPacket {
        spotter: spotter.to_string(),
        frequency: Decimal { mantissa: 14025, scale: 0 },
        spotted: spotted.to_string(),
        mode: "CW".to_string(),
        snr: 15,
        speed: 25,
        message: "CQ CQ CQ".to_string(),
        time: "1234".to_string(),
    }
}

#[test]
fn parses_sample_line() {
    let p = parse(SAMPLE).expect("the sample line is a spot");
    assert_eq!(p.spotter, "K1ABC");
    assert_eq!(p.frequency, Decimal { mantissa: 14025, scale: 0 });
    assert_eq!(p.frequency.to_text(), "14025");
    assert_eq!(p.spotted, "W2XYZ");
    assert_eq!(p.mode, "CW");
    assert_eq!(p.snr, 15);
    assert_eq!(p.speed, 25);
    assert_eq!(p.message, "CQ CQ CQ");
    assert_eq!(p.time, "1234");
    assert_eq!(p, spot("K1ABC", "W2XYZ"));
    assert_ne!(p, spot("K1ABD", "W2XYZ"));
}

#[test]
fn rejects_lines_without_a_spot() {
    assert!(parse("").is_none());
    assert!(parse("Welcome to the feed\r\n").is_none());
    assert!(parse("DX de K1ABC-#: 14025.0 W2XYZ CW 15 dB 25 WPM CQ\n").is_none());
    assert!(parse("DX de -#: 14025.0 W2XYZ CW 15 dB 25 WPM CQ 1234Z\n").is_none());
    assert!(parse("DX de K1ABC-#: 14025.0 W2XYZ CW 15 25 WPM CQ 1234Z\n").is_none());
}

#[test]
fn finds_spot_after_leading_text() {
    let p = parse("noise DX de W1AW/3-#: 7040.1 N0CALL RTTY -3 dB 45 BPS TEST 0001Z\n").unwrap();
    assert_eq!(p.spotter, "W1AW/3");
    assert_eq!(p.frequency.to_text(), "7040.1");
    assert_eq!(p.spotted, "N0CALL");
    assert_eq!(p.mode, "RTTY");
    assert_eq!(p.snr, -3);
    assert_eq!(p.speed, 45);
    assert_eq!(p.message, "TEST");
    assert_eq!(p.time, "0001");
}

#[test]
fn numeric_fields_default_to_zero() {
    let p = parse("DX de K1ABC-#: 1.2.3 W2XYZ CW 1-5 dB 300 WPM CQ 1234Z\n").unwrap();
    assert_eq!(p.frequency, Decimal { mantissa: 0, scale: 0 });
    assert_eq!(p.snr, 0);
    assert_eq!(p.speed, 0);
    let q = parse("DX de K1ABC-#: . W2XYZ CW - dB 255 WPM CQ 1234Z\n").unwrap();
    assert_eq!(q.frequency, Decimal { mantissa: 0, scale: 0 });
    assert_eq!(q.snr, 0);
    assert_eq!(q.speed, 255);
}

#[test]
fn message_may_be_empty_and_time_is_last_stamp() {
    let p = parse("DX de K1ABC-#: 14025.0 W2XYZ CW 15 dB 25 WPM 1234Z\n").unwrap();
    assert_eq!(p.message, "");
    assert_eq!(p.time, "1234");
    let q = parse("DX de K1ABC-#: 14025.0 W2XYZ CW 15 dB 25 WPM NCDXF B 1111Z 2222Z\n").unwrap();
    assert_eq!(q.message, "NCDXF B 1111Z");
    assert_eq!(q.time, "2222");
}

#[test]
fn first_of_two_spots_is_read() {
    let line = "DX de AA1A-#: 7000.0 BB2B CW 1 dB 20 WPM CQ 0100Z DX de CC3C-#: 7001.0 DD4D CW 2 dB 21 WPM CQ 0200Z";
    let p = parse(line).unwrap();
    assert_eq!(p.spotter, "AA1A");
    let q = parse_at(line.as_bytes(), 50).unwrap();
    assert_eq!(q.spotter, "CC3C");
    assert!(parse_at(line.as_bytes(), 1).is_none());
    assert_eq!(parse_bytes(SAMPLE.as_bytes()).unwrap().spotted, "W2XYZ");
}

#[test]
fn decimal_text_is_shortest() {
    assert_eq!(Decimal { mantissa: 5, scale: 2 }.to_text(), "0.05");
    assert_eq!(Decimal { mantissa: 70401, scale: 1 }.to_text(), "7040.1");
    assert_eq!(Decimal { mantissa: 140250, scale: 1 }.to_text(), "14025");
    assert_eq!(Decimal { mantissa: 0, scale: 3 }.to_text(), "0");
    assert_eq!(Decimal { mantissa: 1200, scale: 0 }.to_text(), "1200");
}

#[test]
fn dedupe_key_joins_event_fields() {
    let a = spot("K1ABC", "W2XYZ");
    assert_eq!(a.dirty_hash(), "W2XYZ-14025-CW-1234");
    assert_eq!(a.dirty_hash(), a.dirty_hash());
    let b = spot("N0CALL", "W2XYZ");
    assert_eq!(a.dirty_hash(), b.dirty_hash());
    let c = spot("K1ABC", "W3XYZ");
    assert_ne!(a.dirty_hash(), c.dirty_hash());
}

#[test]
fn parse_all_reads_every_spot() {
    let line = "DX de AA1A-#: 7000.0 BB2B CW 1 dB 20 WPM CQ 0100Z DX de CC3C-#: 7001.0 DD4D CW 2 dB 21 WPM CQ 0200Z";
    let all = rbn_lib::packet::parse_all(line);
    assert_eq!(all.len(), 2);
    assert_eq!(all[0].spotter, "AA1A");
    assert_eq!(all[0].time, "0100");
    assert_eq!(all[1].spotter, "CC3C");
    assert_eq!(all[1].frequency.to_text(), "7001");
    assert!(rbn_lib::packet::parse_all("nothing here").is_empty());
    assert_eq!(rbn_lib::packet::parse_all(SAMPLE).len(), 1);
}

#[test]
fn frequencies_are_read_in_lowest_terms() {
    let a = parse("DX de K1ABC-#: 7040.10 W2XYZ CW 15 dB 25 WPM CQ 1234Z\n").unwrap();
    let b = parse("DX de K1ABC-#: 7040.1 W2XYZ CW 15 dB 25 WPM CQ 1234Z\n").unwrap();
    assert_eq!(a.frequency, Decimal { mantissa: 70401, scale: 1 });
    assert_eq!(a.frequency, b.frequency);
    assert_eq!(a.dirty_hash(), b.dirty_hash());
    let c = parse("DX de K1ABC-#: .5 W2XYZ CW 15 dB 25 WPM CQ 1234Z\n").unwrap();
    assert_eq!(c.frequency, Decimal { mantissa: 5, scale: 1 });
    let d = parse("DX de K1ABC-#: 14025. W2XYZ CW 15 dB 25 WPM CQ 1234Z\n").unwrap();
    assert_eq!(d.frequency, Decimal { mantissa: 14025, scale: 0 });
}

#[test]
fn lines_parse_through_from_str() {
    let p: RbnPacket = SAMPLE.parse().unwrap();
    assert_eq!(p.spotted, "W2XYZ");
    assert!("not a spot".parse::<RbnPacket>().is_err());
}

#[test]
fn time_may_follow_other_whitespace() {
    let p = parse("DX de K1ABC-#: 14025.0 W2XYZ CW 15 dB 25 WPM CQ\t1234Z\n").unwrap();
    assert_eq!(p.message, "CQ");
    assert_eq!(p.time, "1234");
    let q = parse("DX de K1ABC-#: 14025.0 W2XYZ CW 15 dB 25 WPM CQ 1111Z\r2222Z\n").unwrap();
    assert_eq!(q.message, "CQ 1111Z");
    assert_eq!(q.time, "2222");
}

#[test]
fn from_str_reads_like_parse() {
    let p: RbnPacket = "DX de VE3/K1ABC-#: 7040.1 W2XYZ/P FT8 -12 dB 22 BPS CQ 0915Z\r\n".parse().unwrap();
    assert_eq!(p.spotter, "VE3/K1ABC");
    assert_eq!(p.frequency, Decimal { mantissa: 70401, scale: 1 });
    assert_eq!(p.spotted, "W2XYZ/P");
    assert_eq!(p.mode, "FT8");
    assert_eq!(p.snr, -12);
    assert_eq!(p.speed, 22);
    assert_eq!(p.message, "CQ");
    assert_eq!(p.time, "0915");
    let d: RbnPacket = "DX de K1ABC-#: 14025.0 W2XYZ CW 15 dB 25 WPM CQ 73 TEST 1234Z".parse().unwrap();
    assert_eq!(d.message, "CQ 73 TEST");
    let e: RbnPacket = "noise DX de K1ABC-#: 14025.0 W2XYZ CW 15 dB 25 WPM CQ 1234Z DX de N0CALL-#: 7040.0 W1AW CW 9 dB 18 WPM CQ 2359Z".parse().unwrap();
    assert_eq!(e.spotter, "K1ABC");
    assert_eq!(e.time, "1234");
    for s in ["", "hello world\n", "login: ",
              "DX de k1abc-#: 14025.0 W2XYZ CW 15 dB 25 WPM CQ 1234Z",
              "DX de K1ABC-#: 14025.0 W2XYZ CW 15 dB 25 WPM CQ 123Z"] {
        assert!(s.parse::<RbnPacket>().is_err());
    }
}

#[test]
fn huge_scales_end_quickly() {
    assert_eq!(Decimal { mantissa: 0, scale: u64::MAX }.to_text(), "0");
    assert_eq!(rbn_lib::filter::hertz(Decimal { mantissa: u64::MAX, scale: u64::MAX }), 0);
}

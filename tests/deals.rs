use qsh_deals::{
    check_stream, csv_header, deal_line, export_deals, price_text, CeTime, Deal, DealRow,
    ExportError, Operation, Side, Stream, UtcTime,
};

const HEADER: &str = "FrameTimeDelta;ExchTime;DealId;Type;Price;Volume;OI";

fn deal(ftd: i64, timestamp: i64, deal_id: i64, side: Side, price: i64, amount: i64, oi: i64) -> Deal {
    Deal { frame_time_delta: ftd, timestamp, deal_id, side, price, amount, oi }
}

fn time_text(ms: i64) -> Result<String, ExportError> {
    CeTime::new(ms).to_utc().map(|t| t.to_text())
}

fn without_first_field(line: &str) -> String {
    line.split(';').skip(1).collect::<Vec<_>>().join(";")
}

#[test]
fn test_deal_row() {
    let deals = vec![
        deal(0, 63844020307123, 8_000_001, Side::Buy, 2763800, 10, 0),
        deal(17, 63844020307123, 8_000_002, Side::Sell, 2763750, 3, 0),
        deal(250, 63844020308000, 8_000_005, Side::Unknown, 2764000, 120, 0),
    ];
    let expected = [
        "20.02.2024 10:05:07.123;8000001;Buy;27638.00;10;0",
        "20.02.2024 10:05:07.123;8000002;Sell;27637.50;3;0",
        "20.02.2024 10:05:08.000;8000005;Unknown;27640.00;120;0",
    ];
    for (d, e) in deals.iter().zip(expected.iter()) {
        let actual = without_first_field(&DealRow::new(d).unwrap().as_csv(";"));
        assert_eq!(*e, actual);
    }
}

#[test]
fn scenario_row_one_day_after_reference() {
    let d = deal(5, 86_400_000, 42, Side::Buy, 250075, 10, 1000);
    assert_eq!(
        deal_line(&d).unwrap(),
        "5;02.01.0001 00:00:00.000;42;Buy;2500.75;10;1000"
    );
}

#[test]
fn price_keeps_two_fraction_digits() {
    assert_eq!(price_text(123450), "1234.50");
    assert_eq!(price_text(100), "1.00");
    assert_eq!(price_text(250075), "2500.75");
    assert_eq!(price_text(0), "0.00");
    assert_eq!(price_text(5), "0.05");
    assert_eq!(price_text(-5), "-0.05");
    assert_eq!(price_text(-123450), "-1234.50");
}

#[test]
fn price_extremes() {
    assert_eq!(price_text(i64::MAX), "92233720368547758.07");
    assert_eq!(price_text(i64::MIN), "-92233720368547758.08");
}

#[test]
fn price_text_reads_back() {
    for p in [0i64, 1, 99, 100, 101, 123450, -7, -100, 987654321] {
        let s = price_text(p);
        let (neg, body) = match s.strip_prefix('-') {
            Some(b) => (true, b),
            None => (false, s.as_str()),
        };
        let (whole, frac) = body.split_once('.').unwrap();
        assert_eq!(frac.len(), 2);
        let v: i64 = whole.parse::<i64>().unwrap() * 100 + frac.parse::<i64>().unwrap();
        assert_eq!(if neg { -v } else { v }, p);
    }
}

#[test]
fn reference_instant_is_first_of_year_one() {
    assert_eq!(time_text(0).unwrap(), "01.01.0001 00:00:00.000");
}

#[test]
fn timestamp_fields() {
    let t = CeTime::new(63844020307123).to_utc().unwrap();
    assert_eq!(
        t,
        UtcTime { year: 2024, month: 2, day: 20, hour: 10, minute: 5, second: 7, millisecond: 123 }
    );
    assert_eq!(t.to_text(), "20.02.2024 10:05:07.123");
}

#[test]
fn timestamp_is_deterministic() {
    let a = time_text(63844020307123).unwrap();
    let b = time_text(63844020307123).unwrap();
    assert_eq!(a, b);
    assert_eq!(&a[2..3], ".");
    assert_eq!(&a[5..6], ".");
    assert_eq!(&a[a.len() - 4..], ".123");
}

#[test]
fn timestamp_before_year_one() {
    assert_eq!(time_text(-1).unwrap(), "31.12.0000 23:59:59.999");
    assert_eq!(time_text(-31622400001).unwrap(), "31.12.-0001 23:59:59.999");
}

#[test]
fn timestamp_five_digit_year() {
    assert_eq!(time_text(315537897600000).unwrap(), "01.01.+10000 00:00:00.000");
}

#[test]
fn timestamp_range_edges() {
    assert_eq!(time_text(8272402473599999).unwrap(), "31.12.+262142 23:59:59.999");
    assert_eq!(time_text(8272402473600000), Err(ExportError::TimestampOutOfRange));
    assert_eq!(time_text(-8272465632000000).unwrap(), "01.01.-262143 00:00:00.000");
    assert_eq!(time_text(-8272465632000001), Err(ExportError::TimestampOutOfRange));
    assert_eq!(time_text(i64::MAX), Err(ExportError::TimestampOutOfRange));
    assert_eq!(time_text(i64::MIN), Err(ExportError::TimestampOutOfRange));
}

#[test]
fn side_labels() {
    assert_eq!(Operation(Side::Buy).label(), "Buy");
    assert_eq!(Operation(Side::Sell).label(), "Sell");
    assert_eq!(Operation(Side::Unknown).label(), "Unknown");
    assert_eq!(Operation::from(Side::Sell), Operation(Side::Sell));
}

#[test]
fn row_with_other_delimiter_and_negatives() {
    let d = deal(-3, 0, -1, Side::Sell, -250, -2, -9);
    let row = DealRow::new(&d).unwrap();
    assert_eq!(row.as_csv(","), "-3,01.01.0001 00:00:00.000,-1,Sell,-2.50,-2,-9");
    assert_eq!(row.as_csv(" | "), "-3 | 01.01.0001 00:00:00.000 | -1 | Sell | -2.50 | -2 | -9");
}

#[test]
fn row_out_of_range() {
    let d = deal(0, i64::MAX, 1, Side::Buy, 100, 1, 1);
    assert_eq!(DealRow::new(&d), Err(ExportError::TimestampOutOfRange));
    assert_eq!(deal_line(&d), Err(ExportError::TimestampOutOfRange));
}

#[test]
fn header_line() {
    assert_eq!(csv_header(), HEADER);
}

#[test]
fn export_of_no_deals_is_the_header() {
    assert_eq!(export_deals(Stream::Deals, &vec![]).unwrap(), vec![HEADER.to_string()]);
}

#[test]
fn export_keeps_order() {
    let deals = vec![
        deal(1, 0, 3, Side::Sell, 100, 1, 7),
        deal(2, 1000, 1, Side::Buy, 250, 2, 8),
        deal(3, 2000, 2, Side::Unknown, 99, 3, 9),
    ];
    let lines = export_deals(Stream::Deals, &deals).unwrap();
    assert_eq!(
        lines,
        vec![
            HEADER.to_string(),
            "1;01.01.0001 00:00:00.000;3;Sell;1.00;1;7".to_string(),
            "2;01.01.0001 00:00:01.000;1;Buy;2.50;2;8".to_string(),
            "3;01.01.0001 00:00:02.000;2;Unknown;0.99;3;9".to_string(),
        ]
    );
    for (i, d) in deals.iter().enumerate() {
        assert_eq!(lines[i + 1], deal_line(d).unwrap());
    }
}

#[test]
fn export_refuses_other_streams() {
    let deals = vec![deal(1, 0, 3, Side::Sell, 100, 1, 7)];
    assert_eq!(export_deals(Stream::Quotes, &deals), Err(ExportError::UnsupportedStream));
    assert_eq!(export_deals(Stream::OrdLog, &vec![]), Err(ExportError::UnsupportedStream));
    assert_eq!(check_stream(Stream::AuxInfo), Err(ExportError::UnsupportedStream));
    assert_eq!(check_stream(Stream::Deals), Ok(()));
}

#[test]
fn export_aborts_on_bad_timestamp() {
    let deals = vec![deal(1, 0, 3, Side::Sell, 100, 1, 7), deal(2, i64::MIN, 4, Side::Buy, 1, 1, 1)];
    assert_eq!(export_deals(Stream::Deals, &deals), Err(ExportError::TimestampOutOfRange));
}

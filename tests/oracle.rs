use num::FromPrimitive;
use oracle_script::{
    accept_reports, execute_reports, parse_fields, aggregate_value, data_sources_for_symbol, filter_and_medianize, get_minimum_response_count,
    get_responses, get_symbols_for_data_sources, is_supported_symbol, report_fields,
    request_payload, same_text, validate_and_parse_output, validate_value, DataSource, ReportError,
    Response, ResponseCode, SymbolPrices, MULTIPLIER,
};
use owasm_kit::ext;

fn parse_price(s: &str) -> Option<f64> {
    match s.parse::<f64>() {
        Ok(v) if v.is_finite() && v >= 0f64 => Some(v),
        _ => None,
    }
}

fn median(v: &Vec<f64>) -> Option<f64> {
    ext::stats::median_by(v.clone(), ext::cmp::fcmp)
}

fn to_fixed(p: f64) -> Option<u64> {
    u64::from_f64(p * MULTIPLIER as f64)
}

fn strings(v: &[&str]) -> Vec<String> {
    v.iter().map(|s| s.to_string()).collect()
}

#[test]
fn test_validate_value() {
    let value = validate_value("0.12345", &parse_price).unwrap();
    assert_eq!(value, Some(0.12345));

    let null_value = validate_value("-", &parse_price).unwrap();
    assert_eq!(null_value, None);

    let failed_value = validate_value("-0.555", &parse_price);
    assert!(failed_value.is_err());

    let failed_value = validate_value("abc", &parse_price);
    assert!(failed_value.is_err());
}

#[test]
fn test_validate_and_parse_output() {
    let ds_outputs = "1.22,1.32,1.44".to_string();
    let parsed_output = validate_and_parse_output(&ds_outputs, 3, &parse_price).unwrap();
    let expected_output = vec![Some(1.22), Some(1.32), Some(1.44)];
    assert_eq!(parsed_output, expected_output);

    let ds_outputs = "1.22, 1.32, 1.44".to_string();
    let parsed_output = validate_and_parse_output(&ds_outputs, 3, &parse_price).unwrap();
    let expected_output = vec![Some(1.22), Some(1.32), Some(1.44)];
    assert_eq!(parsed_output, expected_output);

    let ds_outputs = "1.22,1.32,1.44,-,1.23".to_string();
    let parsed_output = validate_and_parse_output(&ds_outputs, 5, &parse_price).unwrap();
    let expected_output = vec![Some(1.22), Some(1.32), Some(1.44), None, Some(1.23)];
    assert_eq!(parsed_output, expected_output);

    let ds_outputs = "NO_DATA,ERROR".to_string();
    let parsed_output = validate_and_parse_output(&ds_outputs, 2, &parse_price);
    assert!(parsed_output.is_err());
}

#[test]
fn test_get_minimum_response_count() {
    let min_request = 1..17;
    let expected_min_responses: Vec<usize> = vec![1, 2, 2, 3, 3, 4, 4, 5, 5, 6, 6, 7, 7, 8, 8, 9];

    let min_resp_count = min_request
        .map(|x| get_minimum_response_count(x as i64))
        .collect::<Vec<usize>>();
    assert_eq!(min_resp_count, expected_min_responses);
}

#[test]
fn test_filter_and_medianize() {
    let rates = vec![
        vec![Some(0.0), Some(1.3), Some(2.3)],
        vec![Some(0.1), Some(1.0), Some(2.0)],
        vec![Some(0.3), Some(1.1), Some(2.3)],
        vec![Some(0.3), Some(1.1), Some(2.3)],
    ];
    let result = filter_and_medianize(rates, 3, 2, &median);
    let expected_result = vec![Some(0.2), Some(1.1), Some(2.3)];
    assert_eq!(result, expected_result);

    let rates = vec![
        vec![Some(0.0), Some(1.3), None],
        vec![Some(0.1), Some(1.0), None],
        vec![Some(0.3), Some(1.1), None],
        vec![Some(0.3), Some(1.1), Some(2.3)],
    ];
    let result = filter_and_medianize(rates, 3, 2, &median);
    let expected_result = vec![Some(0.2), Some(1.1), None];
    assert_eq!(result, expected_result);
}

#[test]
fn test_aggregate_value() {
    let data = vec![1.23, 1.24, 1.25, 1.26, 1.27];
    let normal_res = aggregate_value(&data, 3, &median, &to_fixed);
    assert_eq!(normal_res.unwrap(), 1250000000);

    let invalid_data = vec![f64::MAX, f64::MAX, f64::MAX, f64::MAX, f64::MAX];
    let overflow_res = aggregate_value(&invalid_data, 3, &median, &to_fixed);
    assert_eq!(overflow_res.unwrap_err(), ResponseCode::ConversionError);

    let invalid_data = vec![f64::MIN, f64::MIN, f64::MIN, f64::MIN, f64::MIN];
    let overflow_res = aggregate_value(&invalid_data, 3, &median, &to_fixed);
    assert_eq!(overflow_res.unwrap_err(), ResponseCode::ConversionError);

    let invalid_data = vec![f64::NAN, f64::NAN, f64::NAN, f64::NAN, f64::NAN];
    let overflow_res = aggregate_value(&invalid_data, 3, &median, &to_fixed);
    assert_eq!(overflow_res.unwrap_err(), ResponseCode::ConversionError);

    let invalid_data: Vec<f64> = vec![];
    let overflow_res = aggregate_value(&invalid_data, 3, &median, &to_fixed);
    assert_eq!(overflow_res.unwrap_err(), ResponseCode::NotEnoughSources);
}

#[test]
fn test_get_responses() {
    let symbols = strings(&["BTC", "ETH", "DNE"]);
    let mut symbol_prices = SymbolPrices::new();
    for p in [1.23, 1.24, 1.25, 1.26, 1.27] {
        symbol_prices.push_rate(&"BTC".to_string(), p);
    }
    for p in [2.31, 2.32] {
        symbol_prices.push_rate(&"ETH".to_string(), p);
    }
    let responses = get_responses(&symbols, &symbol_prices, 3, &median, &to_fixed);
    assert_eq!(
        responses[0],
        Response::new("BTC".to_string(), ResponseCode::Success, 1250000000)
    );
    assert_eq!(
        responses[1],
        Response::new("ETH".to_string(), ResponseCode::NotEnoughSources, 0)
    );
    assert_eq!(
        responses[2],
        Response::new("DNE".to_string(), ResponseCode::SymbolNotSupported, 0)
    );
}

#[test]
fn minimum_response_count_edges() {
    assert_eq!(get_minimum_response_count(0), 1);
    assert_eq!(get_minimum_response_count(16), 9);
    assert_eq!(get_minimum_response_count(17), 9);
    let mut prev = 0;
    for n in 0..100i64 {
        let q = get_minimum_response_count(n);
        assert!(q >= prev);
        prev = q;
    }
}

#[test]
fn response_codes_as_bytes() {
    assert_eq!(ResponseCode::Success.code(), 0);
    assert_eq!(ResponseCode::SymbolNotSupported.code(), 1);
    assert_eq!(ResponseCode::NotEnoughSources.code(), 2);
    assert_eq!(ResponseCode::ConversionError.code(), 3);
    assert_eq!(ResponseCode::Unknown.code(), 127);
    let r = Response::new("X".to_string(), ResponseCode::Unknown, 0);
    assert_eq!(r.response_code, 127);
}

#[test]
fn registry_lookup() {
    assert_eq!(
        data_sources_for_symbol("WBTC"),
        vec![DataSource::Inch1Eth, DataSource::ArkenEth]
    );
    assert_eq!(data_sources_for_symbol("VC"), vec![DataSource::Inch1Bsc]);
    assert_eq!(
        data_sources_for_symbol("BETH"),
        vec![DataSource::Inch1Bsc, DataSource::ArkenBsc]
    );
    assert!(data_sources_for_symbol("BTC").is_empty());
    assert!(!is_supported_symbol("wbtc"));
    assert!(is_supported_symbol("stETH"));
    assert_eq!(DataSource::Inch1Eth.id(), 715);
    assert_eq!(DataSource::ArkenBsc.id(), 718);
    assert!(same_text("abc", "abc"));
    assert!(!same_text("abc", "abd"));
    assert!(!same_text("ab", "abc"));
}

#[test]
fn grouping_by_data_source() {
    let symbols = strings(&["VC", "WBTC", "DNE", "PHB", "WBTC"]);
    let groups = get_symbols_for_data_sources(&symbols);
    assert_eq!(
        groups,
        vec![
            (715, strings(&["WBTC", "WBTC"])),
            (716, strings(&["WBTC", "WBTC"])),
            (717, strings(&["VC", "PHB"])),
            (718, strings(&["PHB"])),
        ]
    );
    assert_eq!(request_payload(&groups[2].1), "VC PHB");
    assert_eq!(request_payload(&groups[0].1), "WBTC WBTC");
    assert_eq!(request_payload(&Vec::new()), "");

    let none = get_symbols_for_data_sources(&strings(&["DNE", "BTC"]));
    assert!(none.is_empty());
    // The grouping is the same each time it is computed.
    assert_eq!(get_symbols_for_data_sources(&symbols), groups);
}

#[test]
fn report_fields_are_trimmed() {
    assert_eq!(report_fields(" 1.5 ,\t- ,x"), strings(&["1.5", "-", "x"]));
    assert_eq!(report_fields(""), strings(&[""]));
    assert_eq!(report_fields("a,,b"), strings(&["a", "", "b"]));
}

#[test]
fn report_errors() {
    assert_eq!(
        validate_and_parse_output("1.0,2.0", 3, &parse_price),
        Err(ReportError::MismatchedLength)
    );
    assert_eq!(
        validate_and_parse_output("1.0,-2.0,3.0", 3, &parse_price),
        Err(ReportError::InvalidValue)
    );
    assert_eq!(
        validate_value("x", &parse_price),
        Err(ReportError::InvalidValue)
    );
    assert_eq!(
        validate_and_parse_output(" - , 2.5 ", 2, &parse_price),
        Ok(vec![None, Some(2.5)])
    );
}

#[test]
fn medianize_below_quorum_and_empty() {
    let rates: Vec<Vec<Option<f64>>> = vec![];
    assert_eq!(filter_and_medianize(rates, 2, 1, &median), vec![None, None]);
    let rates = vec![vec![Some(1.0), None], vec![Some(3.0), Some(5.0)]];
    assert_eq!(
        filter_and_medianize(rates, 2, 2, &median),
        vec![Some(2.0), None]
    );
}

#[test]
fn aggregate_edges() {
    let empty: Vec<f64> = vec![];
    assert_eq!(
        aggregate_value(&empty, 0, &median, &to_fixed),
        Err(ResponseCode::Unknown)
    );
    assert_eq!(aggregate_value(&vec![2.0, 4.0], 2, &median, &to_fixed), Ok(3000000000));
    assert_eq!(
        aggregate_value(&vec![2.0, 4.0], 3, &median, &to_fixed),
        Err(ResponseCode::NotEnoughSources)
    );
}

#[test]
fn responses_keep_order_and_duplicates() {
    let symbols = strings(&["WBTC", "DNE", "WBTC", "VC"]);
    let mut prices = SymbolPrices::new();
    prices.record_rates(&strings(&["WBTC", "VC"]), &vec![Some(2.0), None]);
    prices.record_rates(&strings(&["WBTC"]), &vec![Some(4.0)]);
    assert_eq!(prices.rates_for(&"WBTC".to_string()), Some(&vec![2.0, 4.0]));
    assert_eq!(prices.rates_for(&"VC".to_string()), None);
    let responses = get_responses(&symbols, &prices, 1, &median, &to_fixed);
    assert_eq!(responses.len(), 4);
    assert_eq!(
        responses,
        vec![
            Response::new("WBTC".to_string(), ResponseCode::Success, 3000000000),
            Response::new("DNE".to_string(), ResponseCode::SymbolNotSupported, 0),
            Response::new("WBTC".to_string(), ResponseCode::Success, 3000000000),
            // Registered but nothing collected: not enough sources.
            Response::new("VC".to_string(), ResponseCode::NotEnoughSources, 0),
        ]
    );
    // Running again on the same values gives the same output.
    assert_eq!(get_responses(&symbols, &prices, 1, &median, &to_fixed), responses);
}

#[test]
fn parse_fields_of_trimmed_report() {
    let fields = strings(&["1.5", "-", "2"]);
    assert_eq!(parse_fields(&fields, 3, &parse_price), Ok(vec![Some(1.5), None, Some(2.0)]));
    assert_eq!(parse_fields(&fields, 2, &parse_price), Err(ReportError::MismatchedLength));
    assert_eq!(
        parse_fields(&strings(&["1", "NaN", "2"]), 2, &parse_price),
        Err(ReportError::InvalidValue)
    );
}

#[test]
fn rejected_reports_are_dropped_whole() {
    let raw = strings(&["1.0,2.0", "bad,2.0", "3.0", "-,4.0"]);
    let rows = accept_reports(&raw, 2, &parse_price);
    assert_eq!(rows, vec![vec![Some(1.0), Some(2.0)], vec![None, Some(4.0)]]);
}

#[test]
fn execution_phase_end_to_end() {
    // Groups: 715 and 716 quote WBTC, WETH; 717 quotes VC.
    let symbols = strings(&["WBTC", "DNE", "VC", "WETH", "WBTC"]);
    let groups = get_symbols_for_data_sources(&symbols);
    assert_eq!(groups.len(), 3);
    assert_eq!(groups[0].1, strings(&["WBTC", "WETH", "WBTC"]));
    let reports = vec![
        strings(&["1.0,2.0,1.0", "1.2,2.2,1.2", "oops", "1.1,-,1.1"]),
        strings(&["1.3, 2.4, 1.3", "1.5,2.6,1.5", "1.0,2.0"]),
        strings(&["7.0", "-"]),
    ];
    let responses = execute_reports(&symbols, &reports, 3, 2, &parse_price, &median, &to_fixed);
    // Quorum for 3 validators is 2. WBTC: 1.1 from 715, 1.4 from 716,
    // collected twice per source as it is requested twice.
    assert_eq!(
        responses,
        vec![
            Response::new("WBTC".to_string(), ResponseCode::Success, 1250000000),
            Response::new("DNE".to_string(), ResponseCode::SymbolNotSupported, 0),
            Response::new("VC".to_string(), ResponseCode::NotEnoughSources, 0),
            Response::new("WETH".to_string(), ResponseCode::Success, 2300000000),
            Response::new("WBTC".to_string(), ResponseCode::Success, 1250000000),
        ]
    );
    // The same reports and configuration give the same output.
    assert_eq!(
        execute_reports(&symbols, &reports, 3, 2, &parse_price, &median, &to_fixed),
        responses
    );
}

#[test]
fn unicode_white_space_around_fields_is_ignored() {
    let padded = "\u{a0}1.5\u{3000},\u{2003}-\n, 2 ";
    assert_eq!(report_fields(padded), strings(&["1.5", "-", "2"]));
    assert_eq!(
        validate_and_parse_output(padded, 3, &parse_price),
        validate_and_parse_output("1.5,-,2", 3, &parse_price)
    );
}

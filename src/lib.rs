//! Aggregation core of a price oracle: symbol registry, report parsing,
//! quorum, per-source and cross-source medianization, response assembly.
//!
//! The numbers themselves are a type parameter: parsing one, taking a median
//! and scaling a price to fixed point are handed in by the caller, and every
//! contract says what is returned for each outcome of those operations.
mod aggregate;
mod assemble;
mod medianize;
mod quorum;
mod registry;
mod report;
mod response;

pub use aggregate::{
    aggregate_outcome, aggregate_value, deterministic_fixed, deterministic_median, fixed_of,
    MULTIPLIER,
};
pub use assemble::{
    extended, find_entry, get_responses, lemma_output_deterministic, response_fields,
    symbol_outcome, values_for, SymbolPrices,
};
pub use medianize::{column_outcome, filter_and_medianize, lemma_column_independent, lemma_medianize_column_replaced, median_of, present_at, rows_of};
pub use quorum::{get_minimum_response_count, lemma_minimum_response_count_monotonic, min_responses};
pub use registry::{
    data_sources_for_symbol, data_sources_of, get_symbols_for_data_sources, group_of,
    is_supported, is_supported_symbol, request_payload, same_text, serves, source_groups,
    space_joined, symbols_for, DataSource,
};
pub use report::{
    field_outcome, is_missing_marker, parse_fields, parses_to, report_outcome, rows_result, report_fields, report_fields_of, split_commas,
    trimmed, trim_start, trim_end, is_white_space, all_white_space, lemma_trimmed_ignores_padding,
    lemma_report_ignores_padding, validate_and_parse_output, validate_value, ReportError,
};
pub use response::{Output, Response, ResponseCode};
mod execute;
pub use execute::{deterministic_parse, lemma_execution_deterministic, accept_reports, accepted_rows, collected, execute_reports, group_values, source_values};

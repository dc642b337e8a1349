//! Verified core of a desktop front end for simulating Functional Mock-up Units.
//!
//! The library holds the session logic of the front end: what is loaded, which
//! outputs are selected, the live plot series, the bounded log, and how the
//! session answers the events that a simulation worker sends back.  Time and
//! sample values are kept generic; the application instantiates them with the
//! floating-point type it plots.

mod app;
mod external;
mod kinds;
mod laws;
mod logging;
mod messages;
mod series;
mod text;
mod worker;

pub use app::{
    contains_name, finish_message, lemma_finish_messages_distinct, lemma_log_after, lemma_record_sample_keeps_series,
    lemma_with_entries, lemma_without, log_after, plottable_output_names, plottable_outputs,
    record_sample, remove_name, without, FmusimApp, LoadedFmu, SimState, StartValue, UiConfig,
    VariableInfo, MAX_LOG_ENTRIES,
};
pub use kinds::{
    lemma_fmi_version_labels_distinct, lemma_interface_labels_distinct, Fmi2Type, Fmi3Type,
    FmiVersion, InterfaceKind, VariableKind,
};
pub use laws::{
    lemma_plottable_kinds, lemma_plottable_output_names, lemma_record_sample_untouched,
    lemma_record_sample_values, lemma_selectable, lemma_series_after_push, lemma_without_filter,
};
pub use logging::{
    lemma_log_level_colors_distinct, lemma_log_level_labels_distinct, lemma_log_level_order, FmiStatus, LogEntry, LogLevel,
};
pub use messages::{SampleMsg, StatusMsg};
pub use series::{
    bounded_push, columns_paired, empty_series, lemma_bounded_push, names_of, series_after_push, series_in,
    series_view, with_entries, LiveSeries, SeriesMap, MAX_SERIES_POINTS, SERIES_DROP,
};
pub use text::{is_whitespace, lemma_trimmed_end, spec_is_whitespace, trim_end, trimmed_end};
pub use worker::{
    clone_names, clone_start_values, find_variable, has_variable, is_first_named, output_indices,
    resolve_outputs, start_values_of, unknown_output_message, SimJobConfig,
};

//! Kidur: a local-first outliner substrate. Nodes carry typed fields that are
//! checked against supertag schemas, every write is recorded in an append-only
//! mutation log, and the current graph state is rebuilt by replaying that log.

mod crdt;
mod edge;
mod error;
mod field_map;
mod field_value;
mod id;
mod index;
mod input;
mod log;
mod mutation;
mod node;
mod registry;
mod supertag_def;
mod text;
mod time;
mod validator;
mod visibility;

pub use id::{uuid_parse, uuid_text, uuid_variant, uuid_version, NodeId};
pub use text::{compare_text, text_eq, text_lt, TextOrder};
pub use time::{midnight_of_day, naive_date_parse, time_lt, utc_datetime_parse, Timestamp};
pub use visibility::{visibility_name, Visibility};
pub use error::{KidurError, KidurResult};
pub use field_value::{kind_name, FieldValue};
pub use supertag_def::{field_type_name, FieldDef, FieldType, SupertagDef};
pub use field_map::{has_key, keys_increasing, lemma_key_unique, lemma_read_after_write, FieldMap};
pub use validator::{
    contains_text, debug_text_list, enum_reason, field_problem, first_missing_from,
    first_problem_from, first_unlisted_from, lemma_enum_without_options_accepts_any,
    lemma_unnamed_field_allowed, lemma_accepted_value, lemma_required_fields_checked, lemma_valid_fields, missing, multi_select_reason, result_verdict,
    schema_lookup, texts, type_reason, validate_fields, validation_verdict, value_has_type, Verdict,
};
pub use edge::Edge;
pub use mutation::{LogEntry, Mutation};
pub use node::Node;
pub use registry::{
    def_named, has_def, is_definition_extension, is_definition_file, last_def_named, lemma_registered, name_index,
    names_distinct, node_verdict_ok, register_one, registered, SupertagRegistry,
};
pub use log::{appended, first_seqs, lemma_appends, lemma_reopen_continues, max_seq, MutationLog};
pub use index::{
    apply_mutation, entry_mutations, filter_text, ids_increasing, listed_before, node_map, passes_filter,
    replay_mutations, touches, last_touch, lemma_listing_order, lemma_replay_last_write, NodeIndex,
};
pub use crdt::{
    content_container, lemma_delete_undoes_insert, lemma_snapshot_roundtrip, loro_export_ok, loro_import_ok,
    loro_snapshot_text, loro_text, snapshot_accepted, text_deleted, text_inserted, CrdtDoc,
    LoroCrdtDoc,
};
pub use input::{
    bool_word, date_format, field_input_ok, find_char_from, first_non_space_from, end_non_space_from,
    input_type, is_white_space, lemma_read_value_fits_type, parse_field_pair, plain_text, parse_field_value, split_from, split_key_value,
    limit_after, split_n, split_text, timestamp_input, trim, trim_text, truncate, FieldInput, FieldInputError,
    ValueProblem,
};

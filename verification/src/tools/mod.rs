//! One module per tool, holding its request and response types and the logic
//! that decides what the tool answers.

pub mod adr_lineage;
pub mod architecture_query;
pub mod check_consistency;
pub mod delete_repo;
pub mod diff_architecture;
pub mod embed_all;
pub mod explain_answer;
pub mod find_decisions;
pub mod find_orphaned_code;
pub mod find_stale_decisions;
pub mod focused_file_brief;
pub mod freshness;
pub mod generate_adr;
pub mod get_architecture;
pub mod get_graph_schema;
pub mod get_graph_snapshot;
pub mod impact_of;
pub mod index_status;
pub mod ingest_symbols;
pub mod inspect_change;
pub mod json_utils;
pub mod list_repos;
pub mod propose_links;
pub mod rank_fusion;
pub mod record_episode;
pub mod retract;
pub mod sync_adrs;
pub mod sync_commits;
pub mod sync_incremental;
pub mod synthesize_adr_leads;
pub mod trace_call_path;
pub mod trace_symbol_history;
pub mod validate_adr;
pub mod verify_claims;
pub mod verify_evidence;
pub mod verify_index_integrity;

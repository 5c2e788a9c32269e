//! Active health probing of a mixnet: the probe-path key codec, the path
//! checker's reachability decisions, fragment reassembly for the listener,
//! and the monitor's probing schedule.
mod monitor;
mod path_check;
mod path_key;
mod reassembly;
mod table;
mod validator;

pub use monitor::{
    lemma_sweep_in_order, new_with_node, path_with_node, run, sweep_actions, sweep_events,
    sweep_paths, transition, FatalError, Monitor, MonitorAction, MonitorEvent, MonitorPhase,
    SweepError, PACING_INTERVAL_SECS, PROBE_SEQUENCE,
};
pub use path_check::{
    all_zero, build_packet_request, is_route_of, register_all, Connection,
    PacketConstructionError, PacketRequest, PathChecker, PathStatus, ProbeDecision, Registration,
};
pub use path_key::{
    flatten_keys, lemma_path_key_len, lemma_path_key_round_trip, node_key_views, path_key_of,
    path_key_to_node_keys, split_keys, unique_path_key, NodeDescriptor, NodeKey,
};
pub use reassembly::{
    accepted, agree_on, arrived, assemble, completed, completes, feed, fragments_of, is_complete,
    lemma_fragments_reassemble_message, lemma_sets_reassemble_independently, own_fragments,
    partial, slots_after, slots_view, step, Fragment, ReassemblyError, ReassemblyState,
};
pub use table::{entries_map, keys_unique, KeyedTable};
pub use validator::Validator;

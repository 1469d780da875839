//! The decision logic of a LAN multiplayer stack: a lobby broker, the client that talks to it, and
//! the reliable datagram transport between peers.
pub mod reliable;
pub mod table;
pub mod text;
pub mod lan_cfg;
pub mod numeral;
pub mod json;
pub mod lobby_filter;
pub mod bytes;
pub mod codec;
pub mod assoc;
pub mod broker;
pub mod lobbies;
pub mod search;
pub mod ini;
pub mod mesh;
pub mod routes;
pub mod http;
pub mod wire;
pub mod descriptor;
pub mod delivery;
pub mod party;
pub mod outbound;
pub mod broker_queue;
pub mod handle;
pub mod scan;
pub mod lobby_json;
pub mod lobby_model;
pub mod lobby_requests;
pub mod lobby_delta;
pub mod lobby_rows;
pub mod lobby_stage;
pub mod lobby_update;
pub mod lobby_client;
pub mod notes;
pub mod diag;
pub mod tally;
pub mod traffic;
pub mod probes;
pub mod probe_lines;
pub mod session_probe;
pub mod quest_lines;
pub mod lobby_probe;
pub mod broker_laws;
pub mod reliable_laws;
pub mod lobby_laws;
pub mod search_laws;
pub mod request_laws;
pub mod mesh_laws;
pub mod party_laws;
pub mod client_laws;
pub mod title_laws;
pub mod line_laws;
pub mod grammar_laws;
pub mod count_laws;


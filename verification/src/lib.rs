//! Verified synchronization mechanics for spatial, real-time entity replication: binary wire
//! frames, packet security and reliability, and the station runtime.

// Building blocks.
pub mod bytes;
pub mod ids;
pub mod lookup_set;
mod memory;
pub mod num;
pub mod ordered_map;
pub mod history_laws;
pub mod pair_history;

// Wire format.
pub mod frame_builder;
pub mod frame_laws;
pub mod frame_ref;
pub mod frames;
pub mod wire_codec;
pub mod layout_laws;
pub mod wire_laws;
pub mod wire_spec;

// Packet transport.
pub mod delivery_laws;
pub mod endpoint_laws;
pub mod key_laws;
pub mod key_ring;
pub mod memory_transport;
pub mod packets;
pub mod reliable_client;
pub mod reliable_frame;
pub mod reliable_station;
pub mod reliable_window;
pub mod replay;
pub mod security_box;
pub mod security_envelope;
pub mod security_laws;
pub mod transport_laws;
pub mod udp_routes;

// Stations and their load.
pub mod cell_index;
pub mod event_router;
pub mod load_laws;
pub mod load_sampler;
pub mod migration;
pub mod migration_laws;
pub mod ownership;
pub mod ownership_laws;
pub mod schedule_laws;
pub mod execution_laws;
pub mod split_execution;
pub mod split_laws;
pub mod split_scheduler;
pub mod station;
pub mod station_laws;
pub mod station_registry;
pub mod station_scheduler;
pub mod station_set;

// Barriers, gateways and deployment.
pub mod barrier;
pub mod barrier_bridge;
pub mod barrier_laws;
pub mod barrier_upgrade;
pub mod notice_laws;
pub mod deployment;
pub mod deployment_laws;
pub mod gateway;
pub mod gateway_bridge;
pub mod gateway_laws;
pub mod ingress_laws;

// Bridges between stations and transports.
pub mod client_bridge;
pub mod client_laws;
pub mod command_dispatch_bridge;
pub mod parallel;
pub mod planning_laws;
pub mod replication_bridge;
pub mod replication_laws;
pub mod replication_receive;
pub mod station_event_bridge;
pub mod station_link_laws;

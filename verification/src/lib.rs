//! A* pathfinding over a packed navigation map.
//!
//! The host (a game server) owns the map. It publishes one packed integer per
//! turf: four bits for the edges a walker may cross, four for a flyer, four that
//! mark an edge as conditional on live blockers, one that says the turf was baked
//! at all, and one that says the turf is simulated (not space).
//!
//! The library never talks to the host. Where a decision needs an answer from it,
//! the library names the request and takes the answer as a plain value:
//!
//! * [`probe`] resolves one turf, request by request;
//! * [`search`] runs one search in slices, and asks for turfs it has not seen;
//! * [`jobs`] keeps the searches that yielded, by job id.
//!
//! A search hands out a best route: on every map that the turfs it has seen can be
//! part of, its path is legal and no other is cheaper. Where it says that there is
//! no path, no such map has one. [`search_model`] says what a search does,
//! [`search_laws`] why that is so, [`search_progress`] and [`search_runs`] why every
//! search ends, and why the slices make no difference. [`map_laws`], [`search_answers`],
//! [`search_moves`], [`request_laws`], [`path_laws`], [`grid_asks`], [`probe_runs`] and
//! [`nav_cache_laws`] say what all of this means in terms of the map, the arguments of
//! a request and the values of the host. [`job_laws`] says why the job
//! ids of searches are never mixed up.
pub mod coord;
pub mod coord_map;
pub mod decimal;
pub mod direction;
pub mod error;
pub mod grid;
pub mod grid_asks;
pub mod grid_laws;
pub mod host_value;
pub mod job_laws;
pub mod jobs;
pub mod map_laws;
pub mod nav_cache;
pub mod nav_cache_laws;
pub mod path;
pub mod path_laws;
pub mod probe;
pub mod probe_laws;
pub mod probe_runs;
pub mod queue;
pub mod request;
pub mod request_laws;
pub mod response;
pub mod search;
pub mod search_answers;
pub mod search_laws;
pub mod search_model;
pub mod search_moves;
pub mod search_progress;
pub mod search_runs;

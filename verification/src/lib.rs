//! Verified core of the orix package manager: package names, integrity
//! strings, version constraints, lockfile maintenance and the decisions the
//! installer takes before it touches the disk or the network.

pub mod text;
pub mod name;
pub mod integrity;
pub mod num;
pub mod version;
pub mod constraint;
pub mod order;
pub mod strmap;
pub mod registry;
pub mod paths;
pub mod strs;
pub mod lockfile;
pub mod referenced;
pub mod manifest;
pub mod package;
pub mod platform;
pub mod pnpm;
pub mod client;
pub mod fetch;
pub mod store;
pub mod graph;
pub mod lockgraph;
pub mod lockcopy;
pub mod update;
pub mod link;
pub mod peer;
pub mod resolve;
pub mod fetchplan;
pub mod linkplan;
pub mod binplan;
pub mod importplan;
pub mod cache;
pub mod urls;
pub mod patch;
pub mod patchshape;

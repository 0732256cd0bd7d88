//! Constructive solid geometry: the integer bookkeeping of the boolean
//! evaluator (operation tables, intersection maps, half-edge siblings and
//! parity statistics against a reference run).
pub mod bvhcast_parity;
pub mod constants;
pub mod half_edge_map;
pub mod hierarchy_steps;
pub mod hit_side;
pub mod intersection_map;
pub mod topology;

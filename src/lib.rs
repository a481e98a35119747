// A sharded key-value map and the query layer on top of it.
//
// table: one shard's table of entries and its map model.
// shard_map: the map itself, its well-formedness and its operations.
// mapref: guards that hand out access to one entry.
// iter: passes over every entry, shard after shard.
// query: inert operation builders and the step that runs them.
// laws: properties that relate several operations.
pub mod iter;
pub mod laws;
pub mod mapref;
pub mod query;
pub mod shard_map;
pub mod table;

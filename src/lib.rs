//! Aggregate statistics over text records: per-entity and per-category counts,
//! best records, bounded top lists, and a deterministic ranked summary.
pub mod modelo;
pub mod estadisticas;
pub mod procesadores;
pub mod leyes;
pub mod ranking;
pub mod estadisticas_serializables;
pub mod argumentos;
pub mod reparto;
pub mod unicidad;

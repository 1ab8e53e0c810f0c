//! Metaheuristics in integer arithmetic: ant-colony optimisation for the
//! capacitated vehicle routing problem, an ant system on a matrix of
//! distances, and the integer side of a particle swarm. Every quantity is
//! held in integers so that each rule can be proved.

pub mod azar;
pub mod cumulo_particulas;
pub mod rutas_vehiculares;
pub mod sistema_hormigas;
pub mod tablas;
pub mod texto;

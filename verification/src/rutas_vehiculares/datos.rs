use vstd::prelude::*;
use crate::tablas::vista_tabla;

verus! {

/// Identifier of a node; identifiers start at 1, and node `id` owns row and
/// column `id - 1` of every table.
pub type NodoId = u32;

/// Trail intensity in fixed point: `FEROMONA_UNIDAD` stands for 1.0.
pub type Feromona = u64;

/// Euclidean distance between two nodes, truncated to an integer.
pub type Distancia = u64;

/// Desirability of an edge as the roulette sees it.
pub type Peso = u32;

/// Evaporation rate in the same fixed point as `Feromona`.
pub type Rho = u64;

/// The graph as a table: a non-zero entry joins the nodes of its row and
/// column.
pub type ConjuntoAristas = Vec<Vec<NodoId>>;

/// The pheromone field: the trail of every pair of nodes.
pub type ConjuntoFeromonas = Vec<Vec<Feromona>>;

/// The table of distances between every pair of nodes.
pub type ConjuntoDistancias = Vec<Vec<Distancia>>;

/// The weight that the roulette gives to every edge.
pub type ConjuntoPesos = Vec<Vec<Peso>>;

/// A route: the nodes visited, in order.
pub type Camino = Vec<NodoId>;

/// A colony of ants.
pub type Hormigas = Vec<Hormiga>;

/// The evaluations of a colony, one per ant and in the same order.
pub type Evaluaciones = Vec<EvaluacionSolucion>;

/// The fixed-point value of 1.0.
pub const FEROMONA_UNIDAD: u64 = 1_000_000_000;

/// The fixed-point value of 0.001, the step of freshly drawn trails.
pub const FEROMONA_MILESIMA: u64 = 1_000_000;

/// No trail between two distinct nodes is left below this floor (0.001).
pub const FEROMONA_MINIMA: u64 = 1_000_000;

/// Cost reported for an ant that is not feasible, and the cost of the best
/// solution while none has been found.
pub const COSTO_CENTINELA: u32 = 0xffff_ffff;

/// The score of one ant's solution.
pub struct EvaluacionSolucion {
    pub costo_total: u32,
    pub vehiculos_usados: u32,
    pub es_factible: bool,
}

/// A node of the instance and its place.
#[derive(Debug)]
pub struct Nodo {
    pub id: u32,
    pub x: u32,
    pub y: u32,
}

/// The demand listed for a node.
#[derive(Debug)]
pub struct Cliente {
    pub id: u32,
    pub demanda: u32,
}

/// An instance of the problem: nodes, demands, depot, vehicle capacity and
/// fleet size.
#[derive(Debug)]
pub struct DatosVRP {
    pub nodos: Vec<Nodo>,
    pub dimension: u32,
    pub capacidad: u32,
    pub deposito_id: u32,
    pub clientes: Vec<Cliente>,
    pub n_vehiculos: u32,
}

/// An ant: the routes of the solution it has built.
#[derive(Debug, Clone)]
pub struct Hormiga {
    pub rutas: Vec<Camino>,
}

/// The best solution known: its routes, its cost and the vehicles it uses.
pub struct Solucion {
    pub rutas: Vec<Camino>,
    pub costo_total: u32,
    pub vehiculos_usados: u32,
}

impl View for Hormiga {
    type V = Seq<Seq<u32>>;

    /// An ant is its routes, each the sequence of the nodes it visits.
    open spec fn view(&self) -> Seq<Seq<u32>> {
        vista_tabla(self.rutas@)
    }
}

/// A colony as the sequence of its ants' routes.
pub open spec fn vista_hormigas(h: Seq<Hormiga>) -> Seq<Seq<Seq<u32>>> {
    Seq::new(h.len(), |k: int| h[k]@)
}

impl Nodo {
    /// The node `id` at the place `(x, y)`.
    pub fn new(id: u32, x: u32, y: u32) -> (nodo: Nodo)
        ensures
            nodo.id == id,
            nodo.x == x,
            nodo.y == y,
    {
        Nodo { id, x, y }
    }
}

impl Hormiga {
    /// An ant that has not built any route yet.
    pub fn new() -> (hormiga: Hormiga)
        ensures
            hormiga.rutas@.len() == 0,
    {
        Hormiga { rutas: Vec::new() }
    }
}

} // verus!

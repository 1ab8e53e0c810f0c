//! Ant Colony System for capacitated vehicle routing: distance table,
//! pheromone field, route construction, evaluation and the colony step.

pub mod carga;
pub mod colonia;
pub mod construccion;
pub mod datos;
pub mod distancias;
pub mod evaluacion;
pub mod feromonas;
pub mod lectura;
pub mod leyes;
pub mod ruleta;
pub mod rutas;
pub mod validacion;

pub use colonia::{actualizar_mejor, copiar_rutas, iteracion, registrar_colonia, Colonia};
pub use construccion::{construccion_rutas, construir_hormiga, inicializacion_hormigas};
pub use datos::{
    Camino, Cliente, ConjuntoAristas, ConjuntoDistancias, ConjuntoFeromonas, ConjuntoPesos,
    DatosVRP, Distancia, EvaluacionSolucion, Evaluaciones, Feromona, Hormiga, Hormigas, Nodo,
    NodoId, Peso, Rho, Solucion, COSTO_CENTINELA, FEROMONA_MILESIMA, FEROMONA_MINIMA,
    FEROMONA_UNIDAD,
};
pub use distancias::{
    calcular_conjunto_distancias, create_conjunto_aristas, distancia_entre, raiz_entera,
};
pub use evaluacion::{buscar_demanda, contiene, evaluacion_soluciones, evaluar_hormiga};
pub use feromonas::{actualizacion_feromona, algoritmo_inicializacion, evapozacion_feromona};
pub use ruleta::{seleccion_con_sorteos, seleccion_por_sorteos, seleccion_ruleta, UMBRAL_MAXIMO};
pub use validacion::{validar_datos, ErrorDatos};
pub use lectura::{leer_matriz, leer_valor_optimo, ErrorLectura, Seccion};

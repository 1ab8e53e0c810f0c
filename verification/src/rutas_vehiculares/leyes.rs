use vstd::prelude::*;
use crate::rutas_vehiculares::construccion::{atendible, es_construccion};
use crate::rutas_vehiculares::datos::{Cliente, Nodo};
use crate::rutas_vehiculares::distancias::{
    distancia_cuadrada, es_raiz_entera, es_tabla_de_distancias, ley_raiz_entera_unica,
};
use crate::rutas_vehiculares::evaluacion::evaluacion_de;
use crate::rutas_vehiculares::rutas::{
    cobertura, demanda_de, demanda_de_ruta, dentro_de_capacidad, es_cliente, factible, visitas,
};

verus! {

/// In a feasible solution the customers visited over all routes, the depot
/// left out, are the instance's customers, each exactly once: as a multiset
/// they hold every customer once and nothing else.
pub proof fn ley_cobertura_de_factibles(
    rutas: Seq<Seq<u32>>,
    clientes: Seq<Cliente>,
    deposito: u32,
    capacidad: u32,
    n_vehiculos: u32,
)
    requires
        factible(rutas, clientes, deposito, capacidad, n_vehiculos),
    ensures
        forall|id: u32| #[trigger]
            visitas(rutas, deposito).to_multiset().count(id) == (if es_cliente(
                clientes,
                deposito,
                id,
            ) {
                1nat
            } else {
                0nat
            }),
{
    let v = visitas(rutas, deposito);
    v.lemma_multiset_has_no_duplicates();
    v.to_multiset_ensures();
    assert forall|id: u32| #[trigger]
        v.to_multiset().count(id) == (if es_cliente(clientes, deposito, id) {
            1nat
        } else {
            0nat
        }) by {
        assert(v.contains(id) <==> es_cliente(clientes, deposito, id));
        assert(v.contains(id) <==> v.to_multiset().count(id) > 0);
        assert(v.to_multiset().count(id) <= 1);
    }
}

/// No route of a feasible solution, and no route that an ant builds, carries
/// more than the vehicle holds.
pub proof fn ley_capacidad_respetada(
    rutas: Seq<Seq<u32>>,
    clientes: Seq<Cliente>,
    deposito: u32,
    capacidad: u32,
    n_vehiculos: u32,
    r: int,
)
    requires
        factible(rutas, clientes, deposito, capacidad, n_vehiculos) || es_construccion(
            rutas,
            clientes,
            deposito,
            capacidad,
        ),
        0 <= r < rutas.len(),
    ensures
        demanda_de_ruta(rutas[r], clientes, deposito) <= capacidad,
{
}

/// The nodes have one table of distances: two tables computed from the same
/// nodes are equal entry by entry.
pub proof fn ley_distancias_unicas(nodos: Seq<Nodo>, a: Seq<Seq<u64>>, b: Seq<Seq<u64>>)
    requires
        es_tabla_de_distancias(a, nodos),
        es_tabla_de_distancias(b, nodos),
    ensures
        a == b,
{
    assert forall|i: int| 0 <= i < a.len() implies #[trigger] a[i] =~= b[i] by {
        assert forall|j: int| 0 <= j < a[i].len() implies a[i][j] == b[i][j] by {
            assert(es_raiz_entera(a[i][j] as int, distancia_cuadrada(nodos[i], nodos[j])));
            assert(es_raiz_entera(b[i][j] as int, distancia_cuadrada(nodos[i], nodos[j])));
            ley_raiz_entera_unica(
                a[i][j] as int,
                b[i][j] as int,
                distancia_cuadrada(nodos[i], nodos[j]),
            );
        }
    }
    assert(a =~= b);
}

/// A table of distances is zero from each node to itself and the same in
/// both directions.
pub proof fn ley_distancias_simetricas(nodos: Seq<Nodo>, t: Seq<Seq<u64>>, i: int, j: int)
    requires
        es_tabla_de_distancias(t, nodos),
        0 <= i < nodos.len(),
        0 <= j < nodos.len(),
    ensures
        t[i][i] == 0,
        t[i][j] == t[j][i],
{
    assert(es_raiz_entera(t[i][i] as int, distancia_cuadrada(nodos[i], nodos[i])));
    assert(es_raiz_entera(t[i][j] as int, distancia_cuadrada(nodos[i], nodos[j])));
    assert(es_raiz_entera(t[j][i] as int, distancia_cuadrada(nodos[j], nodos[i])));
    assert(distancia_cuadrada(nodos[i], nodos[j]) == distancia_cuadrada(nodos[j], nodos[i]))
        by (nonlinear_arith);
    assert(distancia_cuadrada(nodos[i], nodos[i]) == 0) by (nonlinear_arith);
    ley_raiz_entera_unica(t[i][j] as int, t[j][i] as int, distancia_cuadrada(nodos[i], nodos[j]));
    ley_raiz_entera_unica(t[i][i] as int, 0, 0);
}

/// When every customer fits in an empty vehicle, what an ant builds visits
/// every customer exactly once within capacity: it is feasible as soon as
/// the fleet has enough vehicles for its routes.
pub proof fn ley_construccion_factible(
    rutas: Seq<Seq<u32>>,
    clientes: Seq<Cliente>,
    deposito: u32,
    capacidad: u32,
    n_vehiculos: u32,
)
    requires
        es_construccion(rutas, clientes, deposito, capacidad),
        forall|id: u32|
            es_cliente(clientes, deposito, id) ==> #[trigger] demanda_de(clientes, id)
                <= capacidad,
    ensures
        cobertura(rutas, clientes, deposito),
        dentro_de_capacidad(rutas, clientes, deposito, capacidad),
        factible(rutas, clientes, deposito, capacidad, n_vehiculos) <==> rutas.len()
            <= n_vehiculos,
{
    let v = visitas(rutas, deposito);
    assert forall|id: u32| #[trigger] v.contains(id) <==> es_cliente(clientes, deposito, id) by {
        assert(v.contains(id) <==> atendible(clientes, deposito, capacidad, id));
        if es_cliente(clientes, deposito, id) {
            assert(demanda_de(clientes, id) <= capacidad);
        }
    }
}

/// A customer whose demand exceeds the capacity is left unvisited by every
/// ant, so whatever an ant builds is then evaluated as not feasible, with
/// the sentinel cost.
pub proof fn ley_demanda_excesiva(
    rutas: Seq<Seq<u32>>,
    cd: Seq<Seq<u64>>,
    clientes: Seq<Cliente>,
    deposito: u32,
    capacidad: u32,
    n_vehiculos: u32,
    id: u32,
)
    requires
        es_construccion(rutas, clientes, deposito, capacidad),
        es_cliente(clientes, deposito, id),
        demanda_de(clientes, id) > capacidad,
    ensures
        !visitas(rutas, deposito).contains(id),
        !factible(rutas, clientes, deposito, capacidad, n_vehiculos),
        !evaluacion_de(rutas, cd, capacidad, n_vehiculos, clientes, deposito).es_factible,
        evaluacion_de(rutas, cd, capacidad, n_vehiculos, clientes, deposito).costo_total
            == u32::MAX,
{
    let v = visitas(rutas, deposito);
    assert(v.contains(id) <==> atendible(clientes, deposito, capacidad, id));
}

/// A solution with more routes than the fleet has vehicles is not feasible,
/// whatever its routes are.
pub proof fn ley_flota_excedida(
    rutas: Seq<Seq<u32>>,
    cd: Seq<Seq<u64>>,
    clientes: Seq<Cliente>,
    deposito: u32,
    capacidad: u32,
    n_vehiculos: u32,
)
    requires
        rutas.len() > n_vehiculos,
    ensures
        !evaluacion_de(rutas, cd, capacidad, n_vehiculos, clientes, deposito).es_factible,
        evaluacion_de(rutas, cd, capacidad, n_vehiculos, clientes, deposito).costo_total
            == u32::MAX,
{
}

} // verus!

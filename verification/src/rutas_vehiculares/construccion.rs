use vstd::prelude::*;
use crate::rutas_vehiculares::datos::{
    vista_hormigas, Camino, Cliente, ConjuntoAristas, ConjuntoDistancias, ConjuntoPesos, Hormiga,
    Hormigas, NodoId,
};
use crate::rutas_vehiculares::evaluacion::buscar_demanda;
use crate::rutas_vehiculares::ruleta::seleccion_ruleta;
use crate::rutas_vehiculares::rutas::{
    clientes_de_ruta, demanda_de, demanda_de_ruta, dentro_de_capacidad, es_cliente,
    instancia_en_tabla, lema_demanda_crece, lema_demanda_no_negativa, visitas,
};
use crate::tablas::{es_cuadrada, vista_tabla};

verus! {

/// The customer `id` can be served at all: its demand fits in an empty
/// vehicle.
pub open spec fn atendible(clientes: Seq<Cliente>, deposito: u32, capacidad: u32, id: u32) -> bool {
    es_cliente(clientes, deposito, id) && demanda_de(clientes, id) <= capacidad
}

/// A route that leaves the depot, visits at least one customer and comes
/// back, without passing through the depot in between.
pub open spec fn es_ruta_cerrada(ruta: Seq<u32>, deposito: u32) -> bool {
    &&& ruta.len() >= 3
    &&& ruta[0] == deposito
    &&& ruta[ruta.len() - 1] == deposito
    &&& forall|k: int| 0 < k < ruta.len() - 1 ==> ruta[k] != deposito
}

/// Every route was filled until nothing fitted: no customer of a later
/// route would have fitted in an earlier one.
pub open spec fn es_colmada(
    rutas: Seq<Seq<u32>>,
    clientes: Seq<Cliente>,
    deposito: u32,
    capacidad: u32,
) -> bool {
    forall|r: int, s: int, k: int|
        0 <= r < s < rutas.len() && 0 <= k < rutas[s].len() && rutas[s][k] != deposito
            ==> demanda_de_ruta(#[trigger] rutas[r], clientes, deposito) + demanda_de(
            clientes,
            #[trigger] rutas[s][k],
        ) > capacidad
}

/// What holds of the routes that one ant builds, whatever the draws were:
/// every route is closed, within capacity and filled until nothing fitted,
/// and together they visit, exactly once each, the customers that can be
/// served at all.
pub open spec fn es_construccion(
    rutas: Seq<Seq<u32>>,
    clientes: Seq<Cliente>,
    deposito: u32,
    capacidad: u32,
) -> bool {
    &&& forall|r: int| 0 <= r < rutas.len() ==> es_ruta_cerrada(#[trigger] rutas[r], deposito)
    &&& dentro_de_capacidad(rutas, clientes, deposito, capacidad)
    &&& es_colmada(rutas, clientes, deposito, capacidad)
    &&& visitas(rutas, deposito).no_duplicates()
    &&& forall|id: u32| #[trigger]
        visitas(rutas, deposito).contains(id) <==> atendible(clientes, deposito, capacidad, id)
}

/// The identifiers listed, in order.
pub open spec fn ids_de(clientes: Seq<Cliente>) -> Seq<u32> {
    Seq::new(clientes.len(), |k: int| clientes[k].id)
}

/// The test "is not the node `x`".
pub open spec fn distinto_de(x: u32) -> spec_fn(u32) -> bool {
    |id: u32| id != x
}

/// The test "its demand fits in what is left of the vehicle".
pub open spec fn cabe(clientes: Seq<Cliente>, restante: u32) -> spec_fn(u32) -> bool {
    |id: u32| demanda_de(clientes, id) <= restante
}

/// A filtered sequence holds what the sequence holds and passes the test.
proof fn lema_filtro(s: Seq<u32>, p: spec_fn(u32) -> bool)
    ensures
        forall|x: u32| #[trigger] s.filter(p).contains(x) <==> s.contains(x) && p(x),
        s.filter(p).len() <= s.len(),
{
    s.lemma_filter_len(p);
    assert forall|x: u32| #[trigger] s.filter(p).contains(x) <==> s.contains(x) && p(x) by {
        if s.filter(p).contains(x) {
            s.lemma_filter_contains_rev(p, x);
            let i = choose|i: int| 0 <= i < s.filter(p).len() && s.filter(p)[i] == x;
            s.lemma_filter_pred(p, i);
        }
        if s.contains(x) && p(x) {
            let i = choose|i: int| 0 <= i < s.len() && s[i] == x;
            s.lemma_filter_contains(p, i);
        }
    }
}

/// A filter that rejects something of the sequence makes it shorter.
proof fn lema_filtro_acorta(s: Seq<u32>, p: spec_fn(u32) -> bool, x: u32)
    requires
        s.contains(x),
        !p(x),
    ensures
        s.filter(p).len() < s.len(),
    decreases s.len(),
{
    reveal(Seq::filter);
    let i = choose|i: int| 0 <= i < s.len() && s[i] == x;
    s.drop_last().lemma_filter_len(p);
    if i < s.len() - 1 {
        assert(s.drop_last()[i] == x);
        lema_filtro_acorta(s.drop_last(), p, x);
    }
}

/// The identifiers of the customers: the listed nodes other than the depot.
fn ids_pendientes(clientes: &Vec<Cliente>, deposito: NodoId) -> (r: Vec<NodoId>)
    ensures
        r@ == ids_de(clientes@).filter(distinto_de(deposito)),
        forall|id: u32| #[trigger] r@.contains(id) <==> es_cliente(clientes@, deposito, id),
{
    let n: usize = clientes.len();
    let mut r: Vec<NodoId> = Vec::new();
    let mut k: usize = 0;
    proof {
        reveal(Seq::filter);
        assert(ids_de(clientes@.take(0)) =~= Seq::<u32>::empty());
    }
    while k < n
        invariant
            n == clientes@.len(),
            k <= n,
            r@ == ids_de(clientes@.take(k as int)).filter(distinto_de(deposito)),
        decreases n - k,
    {
        let id: u32 = clientes[k].id;
        proof {
            assert(ids_de(clientes@.take(k as int + 1)) =~= ids_de(clientes@.take(k as int)).push(
                id,
            ));
            ids_de(clientes@.take(k as int)).lemma_filter_push(id, distinto_de(deposito));
        }
        if id != deposito {
            r.push(id);
        }
        k += 1;
    }
    proof {
        assert(clientes@.take(n as int) =~= clientes@);
        let ids = ids_de(clientes@);
        lema_filtro(ids, distinto_de(deposito));
        assert forall|id: u32| #[trigger] r@.contains(id) <==> es_cliente(
            clientes@,
            deposito,
            id,
        ) by {
            if es_cliente(clientes@, deposito, id) {
                let a = choose|a: int| 0 <= a < clientes@.len() && (#[trigger] clientes@[a]).id == id;
                assert(ids[a] == id);
                assert(ids.contains(id));
            }
            if r@.contains(id) {
                assert(ids.contains(id));
                let a = choose|a: int| 0 <= a < ids.len() && ids[a] == id;
                assert(clientes@[a].id == id);
            }
        }
    }
    r
}

/// The pending customers whose demand fits in what is left of the vehicle.
fn filtrar_factibles(pendientes: &Vec<NodoId>, clientes: &Vec<Cliente>, restante: u32) -> (r: Vec<
    NodoId,
>)
    ensures
        r@ == pendientes@.filter(cabe(clientes@, restante)),
{
    let n: usize = pendientes.len();
    let mut r: Vec<NodoId> = Vec::new();
    let mut k: usize = 0;
    proof {
        reveal(Seq::filter);
        assert(pendientes@.take(0) =~= Seq::<u32>::empty());
    }
    while k < n
        invariant
            n == pendientes@.len(),
            k <= n,
            r@ == pendientes@.take(k as int).filter(cabe(clientes@, restante)),
        decreases n - k,
    {
        let id: u32 = pendientes[k];
        proof {
            assert(pendientes@.take(k as int + 1) =~= pendientes@.take(k as int).push(id));
            pendientes@.take(k as int).lemma_filter_push(id, cabe(clientes@, restante));
        }
        let demanda: u32 = match buscar_demanda(clientes, id) {
            Some(d) => d,
            None => 0,
        };
        if demanda <= restante {
            r.push(id);
        }
        k += 1;
    }
    proof {
        assert(pendientes@.take(n as int) =~= pendientes@);
    }
    r
}

/// The pending customers without the node `x`.
fn quitar(pendientes: &Vec<NodoId>, x: NodoId) -> (r: Vec<NodoId>)
    ensures
        r@ == pendientes@.filter(distinto_de(x)),
{
    let n: usize = pendientes.len();
    let mut r: Vec<NodoId> = Vec::new();
    let mut k: usize = 0;
    proof {
        reveal(Seq::filter);
        assert(pendientes@.take(0) =~= Seq::<u32>::empty());
    }
    while k < n
        invariant
            n == pendientes@.len(),
            k <= n,
            r@ == pendientes@.take(k as int).filter(distinto_de(x)),
        decreases n - k,
    {
        let id: u32 = pendientes[k];
        proof {
            assert(pendientes@.take(k as int + 1) =~= pendientes@.take(k as int).push(id));
            pendientes@.take(k as int).lemma_filter_push(id, distinto_de(x));
        }
        if id != x {
            r.push(id);
        }
        k += 1;
    }
    proof {
        assert(pendientes@.take(n as int) =~= pendientes@);
    }
    r
}

/// What holds while an ant builds: `rutas` are the routes closed so far,
/// `ruta` the one being built, `pendientes` the customers not yet visited.
spec fn en_construccion(
    rutas: Seq<Seq<u32>>,
    ruta: Seq<u32>,
    pendientes: Seq<u32>,
    clientes: Seq<Cliente>,
    deposito: u32,
    capacidad: u32,
) -> bool {
    let v = visitas(rutas, deposito) + clientes_de_ruta(ruta, deposito);
    &&& forall|r: int| 0 <= r < rutas.len() ==> es_ruta_cerrada(#[trigger] rutas[r], deposito)
    &&& dentro_de_capacidad(rutas, clientes, deposito, capacidad)
    &&& v.no_duplicates()
    &&& forall|id: u32| #[trigger] v.contains(id) ==> atendible(clientes, deposito, capacidad, id)
    &&& forall|id: u32| #[trigger]
        pendientes.contains(id) ==> es_cliente(clientes, deposito, id) && !v.contains(id)
    &&& forall|id: u32|
        es_cliente(clientes, deposito, id) ==> #[trigger] pendientes.contains(id) || v.contains(id)
    &&& es_colmada(rutas, clientes, deposito, capacidad)
    &&& forall|r: int, id: u32|
        0 <= r < rutas.len() && pendientes.contains(id) ==> demanda_de_ruta(
            #[trigger] rutas[r],
            clientes,
            deposito,
        ) + #[trigger] demanda_de(clientes, id) > capacidad
    &&& forall|r: int, k: int|
        0 <= r < rutas.len() && 0 <= k < ruta.len() && ruta[k] != deposito ==> demanda_de_ruta(
            #[trigger] rutas[r],
            clientes,
            deposito,
        ) + demanda_de(clientes, #[trigger] ruta[k]) > capacidad
}

/// A customer owns a row of the tables.
proof fn lema_cliente_en_tabla(clientes: Seq<Cliente>, deposito: u32, n: int, id: u32)
    requires
        instancia_en_tabla(clientes, deposito, n),
        es_cliente(clientes, deposito, id),
    ensures
        1 <= id <= n,
{
    let k = choose|k: int| 0 <= k < clientes.len() && (#[trigger] clientes[k]).id == id;
    assert(1 <= clientes[k].id <= n);
}

/// The state after the customer `s` is appended to the route being built.
proof fn lema_atender(
    rutas: Seq<Seq<u32>>,
    ruta: Seq<u32>,
    pendientes: Seq<u32>,
    clientes: Seq<Cliente>,
    deposito: u32,
    capacidad: u32,
    s: u32,
)
    requires
        en_construccion(rutas, ruta, pendientes, clientes, deposito, capacidad),
        pendientes.contains(s),
        demanda_de(clientes, s) <= capacidad,
    ensures
        en_construccion(
            rutas,
            ruta.push(s),
            pendientes.filter(distinto_de(s)),
            clientes,
            deposito,
            capacidad,
        ),
        clientes_de_ruta(ruta.push(s), deposito) == clientes_de_ruta(ruta, deposito).push(s),
        demanda_de_ruta(ruta.push(s), clientes, deposito) == demanda_de_ruta(
            ruta,
            clientes,
            deposito,
        ) + demanda_de(clientes, s),
        pendientes.filter(distinto_de(s)).len() < pendientes.len(),
{
    let v = visitas(rutas, deposito) + clientes_de_ruta(ruta, deposito);
    let ruta2 = ruta.push(s);
    let pend2 = pendientes.filter(distinto_de(s));
    let v2 = visitas(rutas, deposito) + clientes_de_ruta(ruta2, deposito);
    assert(ruta2.drop_last() =~= ruta);
    assert(es_cliente(clientes, deposito, s) && !v.contains(s));
    assert(v2 =~= v.push(s));
    lema_filtro(pendientes, distinto_de(s));
    lema_filtro_acorta(pendientes, distinto_de(s), s);
    assert forall|id: u32| #[trigger] v2.contains(id) implies atendible(
        clientes,
        deposito,
        capacidad,
        id,
    ) by {
        if id != s {
            let i = choose|i: int| 0 <= i < v2.len() && v2[i] == id;
            assert(v[i] == id);
            assert(v.contains(id));
        }
    }
    assert forall|id: u32| #[trigger] pend2.contains(id) implies es_cliente(
        clientes,
        deposito,
        id,
    ) && !v2.contains(id) by {
        assert(pendientes.contains(id) && id != s);
        if v2.contains(id) {
            let i = choose|i: int| 0 <= i < v2.len() && v2[i] == id;
            assert(v[i] == id);
            assert(v.contains(id));
        }
    }
    assert forall|id: u32| es_cliente(clientes, deposito, id) implies #[trigger] pend2.contains(id)
        || v2.contains(id) by {
        if id == s {
            assert(v2[v2.len() - 1] == s);
        } else if v.contains(id) {
            let i = choose|i: int| 0 <= i < v.len() && v[i] == id;
            assert(v2[i] == id);
        } else {
            assert(pendientes.contains(id));
        }
    }
    assert forall|r: int, id: u32| 0 <= r < rutas.len() && pend2.contains(id) implies demanda_de_ruta(
        #[trigger] rutas[r],
        clientes,
        deposito,
    ) + #[trigger] demanda_de(clientes, id) > capacidad by {
        assert(pendientes.contains(id));
    }
    assert forall|r: int, k: int|
        0 <= r < rutas.len() && 0 <= k < ruta2.len() && ruta2[k] != deposito implies demanda_de_ruta(
        #[trigger] rutas[r],
        clientes,
        deposito,
    ) + demanda_de(clientes, #[trigger] ruta2[k]) > capacidad by {
        if k < ruta.len() {
            assert(ruta2[k] == ruta[k]);
        } else {
            assert(ruta2[k] == s);
        }
    }
    assert(v2.no_duplicates()) by {
        assert forall|i: int, j: int| 0 <= i < v2.len() && 0 <= j < v2.len() && i != j implies v2[i]
            != v2[j] by {
            if i < v.len() && j < v.len() {
                assert(v[i] != v[j]);
            } else if i < v.len() {
                assert(v.contains(v[i]));
            } else {
                assert(v.contains(v[j]));
            }
        }
    }
}

/// The state after the route being built is closed at the depot.
proof fn lema_cerrar(
    rutas: Seq<Seq<u32>>,
    ruta: Seq<u32>,
    pendientes: Seq<u32>,
    clientes: Seq<Cliente>,
    deposito: u32,
    capacidad: u32,
)
    requires
        en_construccion(rutas, ruta, pendientes, clientes, deposito, capacidad),
        ruta.len() >= 2,
        ruta[0] == deposito,
        forall|k: int| 0 < k < ruta.len() ==> ruta[k] != deposito,
        demanda_de_ruta(ruta, clientes, deposito) <= capacidad,
        forall|id: u32| #[trigger]
            pendientes.contains(id) ==> demanda_de_ruta(ruta, clientes, deposito) + demanda_de(
                clientes,
                id,
            ) > capacidad,
    ensures
        en_construccion(
            rutas.push(ruta.push(deposito)),
            Seq::empty(),
            pendientes,
            clientes,
            deposito,
            capacidad,
        ),
{
    let cerrada = ruta.push(deposito);
    let rutas2 = rutas.push(cerrada);
    assert(cerrada.drop_last() =~= ruta);
    assert(rutas2.drop_last() =~= rutas);
    let v = visitas(rutas, deposito) + clientes_de_ruta(ruta, deposito);
    let v2 = visitas(rutas2, deposito) + clientes_de_ruta(Seq::<u32>::empty(), deposito);
    assert(v2 =~= v);
    assert(es_ruta_cerrada(cerrada, deposito));
    assert forall|r: int| 0 <= r < rutas2.len() implies es_ruta_cerrada(
        #[trigger] rutas2[r],
        deposito,
    ) by {
        if r < rutas.len() {
            assert(rutas2[r] == rutas[r]);
        }
    }
    assert forall|r: int| 0 <= r < rutas2.len() implies demanda_de_ruta(
        #[trigger] rutas2[r],
        clientes,
        deposito,
    ) <= capacidad by {
        if r < rutas.len() {
            assert(rutas2[r] == rutas[r]);
        }
    }
    assert forall|r: int, s: int, k: int|
        0 <= r < s < rutas2.len() && 0 <= k < rutas2[s].len() && rutas2[s][k]
            != deposito implies demanda_de_ruta(#[trigger] rutas2[r], clientes, deposito)
        + demanda_de(clientes, #[trigger] rutas2[s][k]) > capacidad by {
        assert(rutas2[r] == rutas[r]);
        if s < rutas.len() {
            assert(rutas2[s] == rutas[s]);
        } else {
            assert(rutas2[s] == cerrada);
            assert(k < ruta.len());
            assert(cerrada[k] == ruta[k]);
        }
    }
    assert forall|r: int, id: u32| 0 <= r < rutas2.len() && pendientes.contains(id) implies demanda_de_ruta(
        #[trigger] rutas2[r],
        clientes,
        deposito,
    ) + #[trigger] demanda_de(clientes, id) > capacidad by {
        if r < rutas.len() {
            assert(rutas2[r] == rutas[r]);
        } else {
            assert(rutas2[r] == cerrada);
        }
    }
}

/// Builds the routes of one ant. Each route leaves the depot with an empty
/// vehicle and takes customers, chosen by the roulette among those whose
/// demand still fits, until none fits; then it returns to the depot. Routes
/// are added until every customer is visited. If no pending customer fits
/// in an empty vehicle, the ant stops there and leaves them unvisited.
pub fn construir_hormiga(
    pesos: &ConjuntoPesos,
    cd: &ConjuntoDistancias,
    capacidad_maxima: u32,
    deposito: NodoId,
    clientes: &Vec<Cliente>,
    rng: &mut rand::rngs::StdRng,
) -> (rutas: Vec<Camino>)
    requires
        es_cuadrada(vista_tabla(pesos@), cd@.len() as int),
        es_cuadrada(vista_tabla(cd@), cd@.len() as int),
        instancia_en_tabla(clientes@, deposito, cd@.len() as int),
    ensures
        es_construccion(vista_tabla(rutas@), clientes@, deposito, capacidad_maxima),
{
    let mut rutas: Vec<Camino> = Vec::new();
    let mut pendientes: Vec<NodoId> = ids_pendientes(clientes, deposito);
    proof {
        assert(vista_tabla(rutas@) =~= Seq::<Seq<u32>>::empty());
        assert(visitas(vista_tabla(rutas@), deposito) + clientes_de_ruta(
            Seq::<u32>::empty(),
            deposito,
        ) =~= Seq::<u32>::empty());
    }
    while pendientes.len() > 0
        invariant
            es_cuadrada(vista_tabla(pesos@), cd@.len() as int),
            es_cuadrada(vista_tabla(cd@), cd@.len() as int),
            instancia_en_tabla(clientes@, deposito, cd@.len() as int),
            en_construccion(
                vista_tabla(rutas@),
                Seq::empty(),
                pendientes@,
                clientes@,
                deposito,
                capacidad_maxima,
            ),
        ensures
            forall|id: u32| #[trigger]
                pendientes@.contains(id) ==> demanda_de(clientes@, id) > capacidad_maxima,
        decreases pendientes@.len(),
    {
        let ghost cerradas = vista_tabla(rutas@);
        let ghost al_empezar = pendientes@.len();
        let mut ruta: Vec<NodoId> = Vec::new();
        ruta.push(deposito);
        let mut restante: u32 = capacidad_maxima;
        let mut actual: NodoId = deposito;
        proof {
            assert(ruta@.drop_last() =~= Seq::<u32>::empty());
            assert(clientes_de_ruta(ruta@, deposito) =~= Seq::<u32>::empty());
            assert(demanda_de_ruta(ruta@.drop_last(), clientes@, deposito) == 0);
        }
        loop
            invariant
                es_cuadrada(vista_tabla(pesos@), cd@.len() as int),
                es_cuadrada(vista_tabla(cd@), cd@.len() as int),
                instancia_en_tabla(clientes@, deposito, cd@.len() as int),
                cerradas == vista_tabla(rutas@),
                en_construccion(
                    cerradas,
                    ruta@,
                    pendientes@,
                    clientes@,
                    deposito,
                    capacidad_maxima,
                ),
                ruta@.len() >= 1,
                ruta@[0] == deposito,
                forall|k: int| 0 < k < ruta@.len() ==> ruta@[k] != deposito,
                demanda_de_ruta(ruta@, clientes@, deposito) + restante == capacidad_maxima,
                1 <= actual <= cd@.len(),
                pendientes@.len() + ruta@.len() <= al_empezar + 1,
            ensures
                forall|id: u32| #[trigger]
                    pendientes@.contains(id) ==> demanda_de(clientes@, id) > restante,
            decreases pendientes@.len(),
        {
            let factibles: Vec<NodoId> = filtrar_factibles(&pendientes, clientes, restante);
            proof {
                lema_filtro(pendientes@, cabe(clientes@, restante));
                assert forall|k: int| 0 <= k < factibles@.len() implies 1 <= #[trigger] factibles@[k]
                    <= cd@.len() by {
                    assert(factibles@.contains(factibles@[k]));
                    lema_cliente_en_tabla(
                        clientes@,
                        deposito,
                        cd@.len() as int,
                        factibles@[k],
                    );
                }
            }
            if factibles.len() == 0 {
                proof {
                    assert forall|id: u32| #[trigger] pendientes@.contains(id) implies demanda_de(
                        clientes@,
                        id,
                    ) > restante by {
                        if demanda_de(clientes@, id) <= restante {
                            assert(cabe(clientes@, restante)(id));
                            assert(factibles@.contains(id));
                        }
                    }
                }
                break ;
            }
            let elegido: Option<NodoId> = seleccion_ruleta(actual, &factibles, pesos, cd, rng);
            match elegido {
                Some(s) => {
                    let demanda: u32 = match buscar_demanda(clientes, s) {
                        Some(d) => d,
                        None => 0,
                    };
                    proof {
                        assert(factibles@.contains(s));
                        assert(pendientes@.contains(s) && cabe(clientes@, restante)(s));
                        lema_demanda_no_negativa(clientes@, s);
                        lema_demanda_crece(ruta@, 0, clientes@, deposito);
                        lema_atender(
                            cerradas,
                            ruta@,
                            pendientes@,
                            clientes@,
                            deposito,
                            capacidad_maxima,
                            s,
                        );
                        lema_cliente_en_tabla(clientes@, deposito, cd@.len() as int, s);
                    }
                    ruta.push(s);
                    restante = restante - demanda;
                    pendientes = quitar(&pendientes, s);
                    actual = s;
                },
                None => {
                    assert(elegido is Some);
                    break ;
                },
            }
        }
        if ruta.len() == 1 {
            proof {
                assert(ruta@.drop_last() =~= Seq::<u32>::empty());
                assert(demanda_de_ruta(ruta@.drop_last(), clientes@, deposito) == 0);
                assert(restante == capacidad_maxima);
            }
            break ;
        }
        let ghost cerrada = ruta@.push(deposito);
        proof {
            lema_demanda_crece(ruta@, 0, clientes@, deposito);
            lema_cerrar(cerradas, ruta@, pendientes@, clientes@, deposito, capacidad_maxima);
        }
        ruta.push(deposito);
        rutas.push(ruta);
        proof {
            assert(vista_tabla(rutas@) =~= cerradas.push(cerrada));
        }
    }
    proof {
        let todas = vista_tabla(rutas@);
        let v = visitas(todas, deposito);
        assert(clientes_de_ruta(Seq::<u32>::empty(), deposito) =~= Seq::<u32>::empty());
        assert(v + clientes_de_ruta(Seq::<u32>::empty(), deposito) =~= v);
        assert forall|id: u32| #[trigger] v.contains(id) <==> atendible(
            clientes@,
            deposito,
            capacidad_maxima,
            id,
        ) by {
            if atendible(clientes@, deposito, capacidad_maxima, id) {
                assert(pendientes@.contains(id) || v.contains(id));
            }
        }
    }
    rutas
}

/// As many ants as asked for, none of which has built a route yet.
pub fn inicializacion_hormigas(n_hormigas: usize) -> (h: Hormigas)
    ensures
        h@.len() == n_hormigas,
        forall|k: int| 0 <= k < n_hormigas ==> (#[trigger] vista_hormigas(h@)[k]).len() == 0,
{
    let mut h: Hormigas = Vec::new();
    let mut k: usize = 0;
    while k < n_hormigas
        invariant
            k <= n_hormigas,
            h@.len() == k,
            forall|a: int| 0 <= a < k ==> (#[trigger] h@[a]).rutas@.len() == 0,
        decreases n_hormigas - k,
    {
        h.push(Hormiga::new());
        k += 1;
    }
    proof {
        assert forall|a: int| 0 <= a < n_hormigas implies (#[trigger] vista_hormigas(h@)[a]).len()
            == 0 by {
            assert(h@[a].rutas@.len() == 0);
        }
    }
    h
}

/// Has every ant of the colony build its routes afresh, whatever it held
/// before. Whatever the draws, each ant ends with closed routes within
/// capacity that visit, once each, the customers that can be served at all.
pub fn construccion_rutas(
    _ca: &ConjuntoAristas,
    pesos: &ConjuntoPesos,
    cd: &ConjuntoDistancias,
    h: &mut Hormigas,
    capacidad_maxima: u32,
    deposito: NodoId,
    clientes: &Vec<Cliente>,
    rng: &mut rand::rngs::StdRng,
)
    requires
        es_cuadrada(vista_tabla(pesos@), cd@.len() as int),
        es_cuadrada(vista_tabla(cd@), cd@.len() as int),
        instancia_en_tabla(clientes@, deposito, cd@.len() as int),
    ensures
        final(h)@.len() == old(h)@.len(),
        forall|k: int|
            0 <= k < final(h)@.len() ==> es_construccion(
                #[trigger] vista_hormigas(final(h)@)[k],
                clientes@,
                deposito,
                capacidad_maxima,
            ),
{
    let total: usize = h.len();
    let mut k: usize = 0;
    while k < total
        invariant
            es_cuadrada(vista_tabla(pesos@), cd@.len() as int),
            es_cuadrada(vista_tabla(cd@), cd@.len() as int),
            instancia_en_tabla(clientes@, deposito, cd@.len() as int),
            total == old(h)@.len(),
            h@.len() == total,
            k <= total,
            forall|a: int|
                0 <= a < k ==> es_construccion(
                    #[trigger] vista_hormigas(h@)[a],
                    clientes@,
                    deposito,
                    capacidad_maxima,
                ),
        decreases total - k,
    {
        let rutas: Vec<Camino> = construir_hormiga(
            pesos,
            cd,
            capacidad_maxima,
            deposito,
            clientes,
            rng,
        );
        let ghost antes = h@;
        h.set(k, Hormiga { rutas });
        proof {
            assert forall|a: int| 0 <= a < k + 1 implies es_construccion(
                #[trigger] vista_hormigas(h@)[a],
                clientes@,
                deposito,
                capacidad_maxima,
            ) by {
                if a < k {
                    assert(vista_hormigas(h@)[a] == vista_hormigas(antes)[a]);
                }
            }
        }
        k += 1;
    }
}

} // verus!

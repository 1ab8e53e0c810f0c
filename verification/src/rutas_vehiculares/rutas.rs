use vstd::prelude::*;
use crate::rutas_vehiculares::datos::Cliente;

verus! {

/// The customers that a route visits, in order: its nodes other than the depot.
pub open spec fn clientes_de_ruta(ruta: Seq<u32>, deposito: u32) -> Seq<u32>
    decreases ruta.len(),
{
    if ruta.len() == 0 {
        Seq::empty()
    } else {
        let antes = clientes_de_ruta(ruta.drop_last(), deposito);
        if ruta.last() != deposito {
            antes.push(ruta.last())
        } else {
            antes
        }
    }
}

/// The customers that the routes visit, route after route.
pub open spec fn visitas(rutas: Seq<Seq<u32>>, deposito: u32) -> Seq<u32>
    decreases rutas.len(),
{
    if rutas.len() == 0 {
        Seq::empty()
    } else {
        visitas(rutas.drop_last(), deposito) + clientes_de_ruta(rutas.last(), deposito)
    }
}

/// `id` names a customer of the instance: a listed node that is not the depot.
pub open spec fn es_cliente(clientes: Seq<Cliente>, deposito: u32, id: u32) -> bool {
    id != deposito && exists|k: int| 0 <= k < clientes.len() && (#[trigger] clientes[k]).id == id
}

/// The demand listed for the node `id`: that of its first entry, 0 if it has
/// none.
pub open spec fn demanda_de(clientes: Seq<Cliente>, id: u32) -> int
    decreases clientes.len(),
{
    if clientes.len() == 0 {
        0
    } else if clientes[0].id == id {
        clientes[0].demanda as int
    } else {
        demanda_de(clientes.drop_first(), id)
    }
}

/// The sum of the demands of the customers that a route visits.
pub open spec fn demanda_de_ruta(ruta: Seq<u32>, clientes: Seq<Cliente>, deposito: u32) -> int
    decreases ruta.len(),
{
    if ruta.len() == 0 {
        0
    } else {
        demanda_de_ruta(ruta.drop_last(), clientes, deposito) + (if ruta.last() != deposito {
            demanda_de(clientes, ruta.last())
        } else {
            0
        })
    }
}

/// The sum of the table's entries along the consecutive pairs of a route.
pub open spec fn costo_de_ruta(ruta: Seq<u32>, cd: Seq<Seq<u64>>) -> int
    decreases ruta.len(),
{
    if ruta.len() < 2 {
        0
    } else {
        costo_de_ruta(ruta.drop_last(), cd) + cd[ruta[ruta.len() - 2] - 1][ruta[ruta.len() - 1]
            - 1]
    }
}

/// The sum of the costs of the routes.
pub open spec fn costo_de_rutas(rutas: Seq<Seq<u32>>, cd: Seq<Seq<u64>>) -> int
    decreases rutas.len(),
{
    if rutas.len() == 0 {
        0
    } else {
        costo_de_rutas(rutas.drop_last(), cd) + costo_de_ruta(rutas.last(), cd)
    }
}

/// Every customer is visited exactly once over all the routes, and nothing
/// but customers and the depot is visited.
pub open spec fn cobertura(rutas: Seq<Seq<u32>>, clientes: Seq<Cliente>, deposito: u32) -> bool {
    &&& visitas(rutas, deposito).no_duplicates()
    &&& forall|id: u32| #[trigger]
        visitas(rutas, deposito).contains(id) <==> es_cliente(clientes, deposito, id)
}

/// No route carries more than the vehicle holds.
pub open spec fn dentro_de_capacidad(
    rutas: Seq<Seq<u32>>,
    clientes: Seq<Cliente>,
    deposito: u32,
    capacidad: u32,
) -> bool {
    forall|r: int|
        0 <= r < rutas.len() ==> demanda_de_ruta(#[trigger] rutas[r], clientes, deposito)
            <= capacidad
}

/// A solution is feasible when it uses no more vehicles than the fleet has,
/// overloads none of them, and visits every customer exactly once.
pub open spec fn factible(
    rutas: Seq<Seq<u32>>,
    clientes: Seq<Cliente>,
    deposito: u32,
    capacidad: u32,
    n_vehiculos: u32,
) -> bool {
    &&& rutas.len() <= n_vehiculos
    &&& dentro_de_capacidad(rutas, clientes, deposito, capacidad)
    &&& cobertura(rutas, clientes, deposito)
}

/// The depot and every listed node own a row of a table of `n` rows.
pub open spec fn instancia_en_tabla(clientes: Seq<Cliente>, deposito: u32, n: int) -> bool {
    &&& 1 <= deposito <= n
    &&& forall|k: int| 0 <= k < clientes.len() ==> 1 <= (#[trigger] clientes[k]).id <= n
}

/// `a` opens `b`: `b` starts with the entries of `a`.
pub open spec fn abre(a: Seq<u32>, b: Seq<u32>) -> bool {
    &&& a.len() <= b.len()
    &&& forall|i: int| 0 <= i < a.len() ==> a[i] == b[i]
}

/// A demand is a 32-bit number: it is not negative.
pub proof fn lema_demanda_no_negativa(clientes: Seq<Cliente>, id: u32)
    ensures
        0 <= demanda_de(clientes, id) <= u32::MAX,
    decreases clientes.len(),
{
    if clientes.len() > 0 && clientes[0].id != id {
        lema_demanda_no_negativa(clientes.drop_first(), id);
    }
}

/// One more node of a route: what it adds to the customers visited and to
/// the demand carried.
pub proof fn lema_un_nodo_mas(ruta: Seq<u32>, k: int, clientes: Seq<Cliente>, deposito: u32)
    requires
        0 <= k < ruta.len(),
    ensures
        clientes_de_ruta(ruta.take(k + 1), deposito) == if ruta[k] != deposito {
            clientes_de_ruta(ruta.take(k), deposito).push(ruta[k])
        } else {
            clientes_de_ruta(ruta.take(k), deposito)
        },
        demanda_de_ruta(ruta.take(k + 1), clientes, deposito) == demanda_de_ruta(
            ruta.take(k),
            clientes,
            deposito,
        ) + (if ruta[k] != deposito {
            demanda_de(clientes, ruta[k])
        } else {
            0
        }),
{
    assert(ruta.take(k + 1).drop_last() =~= ruta.take(k));
}

/// One more step of a route: what it adds to the cost.
pub proof fn lema_un_paso_mas(ruta: Seq<u32>, k: int, cd: Seq<Seq<u64>>)
    requires
        1 <= k < ruta.len(),
    ensures
        costo_de_ruta(ruta.take(k + 1), cd) == costo_de_ruta(ruta.take(k), cd) + cd[ruta[k - 1]
            - 1][ruta[k] - 1],
{
    assert(ruta.take(k + 1).drop_last() =~= ruta.take(k));
}

/// One more route: what it adds to the customers visited and to the cost.
pub proof fn lema_una_ruta_mas(rutas: Seq<Seq<u32>>, r: int, deposito: u32, cd: Seq<Seq<u64>>)
    requires
        0 <= r < rutas.len(),
    ensures
        visitas(rutas.take(r + 1), deposito) == visitas(rutas.take(r), deposito)
            + clientes_de_ruta(rutas[r], deposito),
        costo_de_rutas(rutas.take(r + 1), cd) == costo_de_rutas(rutas.take(r), cd)
            + costo_de_ruta(rutas[r], cd),
{
    assert(rutas.take(r + 1).drop_last() =~= rutas.take(r));
}

/// The customers of the first `k` nodes of a route open those of the route.
pub proof fn lema_abre_ruta(ruta: Seq<u32>, k: int, deposito: u32)
    requires
        0 <= k <= ruta.len(),
    ensures
        abre(clientes_de_ruta(ruta.take(k), deposito), clientes_de_ruta(ruta, deposito)),
    decreases ruta.len(),
{
    if k == ruta.len() {
        assert(ruta.take(k) =~= ruta);
    } else {
        assert(ruta.drop_last().take(k) =~= ruta.take(k));
        lema_abre_ruta(ruta.drop_last(), k, deposito);
    }
}

/// The demand carried never goes down along a route.
pub proof fn lema_demanda_crece(ruta: Seq<u32>, k: int, clientes: Seq<Cliente>, deposito: u32)
    requires
        0 <= k <= ruta.len(),
    ensures
        0 <= demanda_de_ruta(ruta.take(k), clientes, deposito) <= demanda_de_ruta(
            ruta,
            clientes,
            deposito,
        ),
    decreases ruta.len(),
{
    if k == ruta.len() {
        assert(ruta.take(k) =~= ruta);
        if k > 0 {
            lema_demanda_crece(ruta.drop_last(), k - 1, clientes, deposito);
            assert(ruta.drop_last().take(k - 1) =~= ruta.drop_last());
            lema_demanda_no_negativa(clientes, ruta.last());
        }
    } else {
        assert(ruta.drop_last().take(k) =~= ruta.take(k));
        lema_demanda_crece(ruta.drop_last(), k, clientes, deposito);
        lema_demanda_no_negativa(clientes, ruta.last());
    }
}

/// The customers of the first `r` routes, then those of the first `k` nodes
/// of the next, open the customers of all the routes.
pub proof fn lema_abre_visitas(rutas: Seq<Seq<u32>>, r: int, k: int, deposito: u32)
    requires
        0 <= r < rutas.len(),
        0 <= k <= rutas[r].len(),
    ensures
        abre(
            visitas(rutas.take(r), deposito) + clientes_de_ruta(rutas[r].take(k), deposito),
            visitas(rutas, deposito),
        ),
    decreases rutas.len(),
{
    if r == rutas.len() - 1 {
        assert(rutas.take(r) =~= rutas.drop_last());
        lema_abre_ruta(rutas[r], k, deposito);
    } else {
        assert(rutas.drop_last().take(r) =~= rutas.take(r));
        lema_abre_visitas(rutas.drop_last(), r, k, deposito);
    }
}

/// Whatever opens a sequence without repeats has none, and what it holds the
/// sequence holds.
pub proof fn lema_abre_conserva(a: Seq<u32>, b: Seq<u32>)
    requires
        abre(a, b),
    ensures
        b.no_duplicates() ==> a.no_duplicates(),
        forall|x: u32| a.contains(x) ==> b.contains(x),
{
    assert forall|x: u32| a.contains(x) implies b.contains(x) by {
        let i = choose|i: int| 0 <= i < a.len() && a[i] == x;
        assert(b[i] == x);
    }
}

/// A node of a route that is not the depot is among the customers visited.
pub proof fn lema_nodo_visitado(rutas: Seq<Seq<u32>>, r: int, k: int, deposito: u32)
    requires
        0 <= r < rutas.len(),
        0 <= k < rutas[r].len(),
        rutas[r][k] != deposito,
    ensures
        visitas(rutas, deposito).contains(rutas[r][k]),
{
    let ruta = rutas[r];
    lema_un_nodo_mas(ruta, k, Seq::empty(), deposito);
    let parte = visitas(rutas.take(r), deposito) + clientes_de_ruta(ruta.take(k + 1), deposito);
    let ultimo = parte.len() - 1;
    assert(parte[ultimo] == ruta[k]);
    lema_abre_visitas(rutas, r, k + 1, deposito);
    lema_abre_conserva(parte, visitas(rutas, deposito));
}

} // verus!

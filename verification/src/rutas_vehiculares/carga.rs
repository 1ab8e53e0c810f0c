use vstd::prelude::*;
use crate::rutas_vehiculares::datos::Cliente;
use crate::rutas_vehiculares::evaluacion::evaluacion_de;
use crate::rutas_vehiculares::rutas::{
    clientes_de_ruta, demanda_de, demanda_de_ruta, dentro_de_capacidad, es_cliente, factible,
    visitas,
};

verus! {

/// The sum of the demands listed for the nodes of a sequence.
pub open spec fn demanda_de_visitas(v: Seq<u32>, clientes: Seq<Cliente>) -> int
    decreases v.len(),
{
    if v.len() == 0 {
        0
    } else {
        demanda_de_visitas(v.drop_last(), clientes) + demanda_de(clientes, v.last())
    }
}

/// The total demand of the instance: the sum of the demands listed for
/// nodes other than the depot.
pub open spec fn demanda_total(clientes: Seq<Cliente>, deposito: u32) -> int
    decreases clientes.len(),
{
    if clientes.len() == 0 {
        0
    } else {
        demanda_total(clientes.drop_last(), deposito) + (if clientes.last().id != deposito {
            clientes.last().demanda as int
        } else {
            0
        })
    }
}

/// The sum of the demands that the routes carry.
pub open spec fn demanda_de_rutas(rutas: Seq<Seq<u32>>, clientes: Seq<Cliente>, deposito: u32) -> int
    decreases rutas.len(),
{
    if rutas.len() == 0 {
        0
    } else {
        demanda_de_rutas(rutas.drop_last(), clientes, deposito) + demanda_de_ruta(
            rutas.last(),
            clientes,
            deposito,
        )
    }
}

/// No node is listed twice.
pub open spec fn sin_repetir(clientes: Seq<Cliente>) -> bool {
    forall|a: int, b: int|
        0 <= a < b < clientes.len() ==> (#[trigger] clientes[a]).id != (#[trigger] clientes[b]).id
}

proof fn lema_ruta_y_visitas(ruta: Seq<u32>, clientes: Seq<Cliente>, deposito: u32)
    ensures
        demanda_de_ruta(ruta, clientes, deposito) == demanda_de_visitas(
            clientes_de_ruta(ruta, deposito),
            clientes,
        ),
    decreases ruta.len(),
{
    if ruta.len() > 0 {
        lema_ruta_y_visitas(ruta.drop_last(), clientes, deposito);
        if ruta.last() != deposito {
            let antes = clientes_de_ruta(ruta.drop_last(), deposito);
            assert(antes.push(ruta.last()).drop_last() =~= antes);
        }
    }
}

proof fn lema_visitas_sumadas(a: Seq<u32>, b: Seq<u32>, clientes: Seq<Cliente>)
    ensures
        demanda_de_visitas(a + b, clientes) == demanda_de_visitas(a, clientes)
            + demanda_de_visitas(b, clientes),
    decreases b.len(),
{
    if b.len() == 0 {
        assert(a + b =~= a);
    } else {
        lema_visitas_sumadas(a, b.drop_last(), clientes);
        assert((a + b).drop_last() =~= a + b.drop_last());
    }
}

proof fn lema_rutas_y_visitas(rutas: Seq<Seq<u32>>, clientes: Seq<Cliente>, deposito: u32)
    ensures
        demanda_de_rutas(rutas, clientes, deposito) == demanda_de_visitas(
            visitas(rutas, deposito),
            clientes,
        ),
    decreases rutas.len(),
{
    if rutas.len() > 0 {
        lema_rutas_y_visitas(rutas.drop_last(), clientes, deposito);
        lema_ruta_y_visitas(rutas.last(), clientes, deposito);
        lema_visitas_sumadas(
            visitas(rutas.drop_last(), deposito),
            clientes_de_ruta(rutas.last(), deposito),
            clientes,
        );
    }
}

proof fn lema_rutas_acotadas(
    rutas: Seq<Seq<u32>>,
    clientes: Seq<Cliente>,
    deposito: u32,
    capacidad: u32,
)
    requires
        dentro_de_capacidad(rutas, clientes, deposito, capacidad),
    ensures
        demanda_de_rutas(rutas, clientes, deposito) <= rutas.len() * capacidad,
    decreases rutas.len(),
{
    if rutas.len() > 0 {
        let resto = rutas.drop_last();
        assert forall|r: int| 0 <= r < resto.len() implies demanda_de_ruta(
            #[trigger] resto[r],
            clientes,
            deposito,
        ) <= capacidad by {
            assert(resto[r] == rutas[r]);
        }
        lema_rutas_acotadas(resto, clientes, deposito, capacidad);
        assert(demanda_de_ruta(rutas[rutas.len() - 1], clientes, deposito) <= capacidad);
        assert((rutas.len() - 1) * capacidad + capacidad == rutas.len() * capacidad)
            by (nonlinear_arith);
    }
}

/// Taking one node out of a sequence takes its demand out of the sum.
proof fn lema_sin_una_visita(v: Seq<u32>, i: int, clientes: Seq<Cliente>)
    requires
        0 <= i < v.len(),
    ensures
        demanda_de_visitas(v, clientes) == demanda_de_visitas(v.remove(i), clientes) + demanda_de(
            clientes,
            v[i],
        ),
    decreases v.len(),
{
    if i == v.len() - 1 {
        assert(v.remove(i) =~= v.drop_last());
    } else {
        lema_sin_una_visita(v.drop_last(), i, clientes);
        assert(v.remove(i).drop_last() =~= v.drop_last().remove(i));
        assert(v.remove(i).last() == v.last());
    }
}

/// The last entry of the list does not change the demand of any other node.
proof fn lema_demanda_sin_el_ultimo(clientes: Seq<Cliente>, id: u32)
    requires
        clientes.len() > 0,
        clientes.last().id != id,
    ensures
        demanda_de(clientes, id) == demanda_de(clientes.drop_last(), id),
    decreases clientes.len(),
{
    let sin = clientes.drop_last();
    if clientes.len() > 1 {
        assert(sin[0] == clientes[0]);
        if clientes[0].id != id {
            let resto = clientes.drop_first();
            assert(resto.last() == clientes.last());
            assert(resto.drop_last() =~= sin.drop_first());
            lema_demanda_sin_el_ultimo(resto, id);
            assert(demanda_de(clientes, id) == demanda_de(resto, id));
            assert(demanda_de(sin, id) == demanda_de(sin.drop_first(), id));
        } else {
            assert(demanda_de(clientes, id) == clientes[0].demanda);
            assert(demanda_de(sin, id) == sin[0].demanda);
        }
    } else {
        assert(clientes[0] == clientes.last());
        assert(demanda_de(clientes, id) == demanda_de(clientes.drop_first(), id));
        assert(demanda_de(clientes.drop_first(), id) == 0);
        assert(demanda_de(sin, id) == 0);
    }
}

/// In a list without repeats the demand of the last node is the last entry's.
proof fn lema_demanda_del_ultimo(clientes: Seq<Cliente>)
    requires
        clientes.len() > 0,
        sin_repetir(clientes),
    ensures
        demanda_de(clientes, clientes.last().id) == clientes.last().demanda,
    decreases clientes.len(),
{
    if clientes.len() > 1 {
        let resto = clientes.drop_first();
        assert(clientes[0].id != clientes[clientes.len() - 1].id);
        assert forall|a: int, b: int| 0 <= a < b < resto.len() implies (#[trigger] resto[a]).id != (
        #[trigger] resto[b]).id by {
            assert(resto[a] == clientes[a + 1]);
            assert(resto[b] == clientes[b + 1]);
        }
        lema_demanda_del_ultimo(resto);
    }
}

/// Nodes other than the last of the list demand the same without it.
proof fn lema_visitas_sin_el_ultimo(v: Seq<u32>, clientes: Seq<Cliente>)
    requires
        clientes.len() > 0,
        forall|k: int| 0 <= k < v.len() ==> #[trigger] v[k] != clientes.last().id,
    ensures
        demanda_de_visitas(v, clientes) == demanda_de_visitas(v, clientes.drop_last()),
    decreases v.len(),
{
    if v.len() > 0 {
        assert forall|k: int| 0 <= k < v.drop_last().len() implies #[trigger] v.drop_last()[k]
            != clientes.last().id by {
            assert(v.drop_last()[k] == v[k]);
        }
        lema_visitas_sin_el_ultimo(v.drop_last(), clientes);
        assert(v[v.len() - 1] != clientes.last().id);
        lema_demanda_sin_el_ultimo(clientes, v.last());
    }
}

/// Visiting every customer once carries the total demand.
proof fn lema_visitas_completas(v: Seq<u32>, clientes: Seq<Cliente>, deposito: u32)
    requires
        sin_repetir(clientes),
        v.no_duplicates(),
        forall|id: u32| #[trigger] v.contains(id) <==> es_cliente(clientes, deposito, id),
    ensures
        demanda_de_visitas(v, clientes) == demanda_total(clientes, deposito),
    decreases clientes.len(),
{
    if clientes.len() == 0 {
        if v.len() > 0 {
            assert(v.contains(v[0]));
            assert(es_cliente(clientes, deposito, v[0]));
        }
    } else {
        let c = clientes.last();
        let resto = clientes.drop_last();
        let ultimo = clientes.len() - 1;
        assert forall|a: int, b: int| 0 <= a < b < resto.len() implies (#[trigger] resto[a]).id != (
        #[trigger] resto[b]).id by {
            assert(resto[a] == clientes[a]);
            assert(resto[b] == clientes[b]);
        }
        if c.id == deposito {
            assert forall|id: u32| #[trigger] v.contains(id) <==> es_cliente(resto, deposito, id) by {
                if es_cliente(clientes, deposito, id) {
                    let k = choose|k: int| 0 <= k < clientes.len() && (#[trigger] clientes[k]).id == id;
                    assert(k != ultimo);
                    assert(resto[k].id == id);
                }
                if es_cliente(resto, deposito, id) {
                    let k = choose|k: int| 0 <= k < resto.len() && (#[trigger] resto[k]).id == id;
                    assert(clientes[k].id == id);
                }
            }
            assert forall|k: int| 0 <= k < v.len() implies #[trigger] v[k] != c.id by {
                assert(v.contains(v[k]));
            }
            lema_visitas_sin_el_ultimo(v, clientes);
            lema_visitas_completas(v, resto, deposito);
        } else {
            assert(clientes[ultimo].id == c.id);
            assert(es_cliente(clientes, deposito, c.id));
            assert(v.contains(c.id));
            let i = choose|i: int| 0 <= i < v.len() && v[i] == c.id;
            let w = v.remove(i);
            assert forall|a: int, b: int| 0 <= a < w.len() && 0 <= b < w.len() && a != b implies w[a]
                != w[b] by {
                let a2 = if a < i {
                    a
                } else {
                    a + 1
                };
                let b2 = if b < i {
                    b
                } else {
                    b + 1
                };
                assert(w[a] == v[a2] && w[b] == v[b2] && a2 != b2);
            }
            assert forall|k: int| 0 <= k < w.len() implies #[trigger] w[k] != c.id by {
                let k2 = if k < i {
                    k
                } else {
                    k + 1
                };
                assert(w[k] == v[k2] && k2 != i);
            }
            assert forall|id: u32| #[trigger] w.contains(id) <==> es_cliente(resto, deposito, id) by {
                if w.contains(id) {
                    let k = choose|k: int| 0 <= k < w.len() && w[k] == id;
                    let k2 = if k < i {
                        k
                    } else {
                        k + 1
                    };
                    assert(v[k2] == id);
                    assert(v.contains(id));
                    assert(id != c.id);
                    let m = choose|m: int| 0 <= m < clientes.len() && (#[trigger] clientes[m]).id == id;
                    assert(m != ultimo);
                    assert(resto[m].id == id);
                }
                if es_cliente(resto, deposito, id) {
                    let m = choose|m: int| 0 <= m < resto.len() && (#[trigger] resto[m]).id == id;
                    assert(clientes[m].id == id);
                    assert(clientes[m].id != clientes[ultimo].id);
                    assert(v.contains(id));
                    let k = choose|k: int| 0 <= k < v.len() && v[k] == id;
                    assert(k != i);
                    let k2 = if k < i {
                        k
                    } else {
                        k - 1
                    };
                    assert(w[k2] == id);
                }
            }
            lema_sin_una_visita(v, i, clientes);
            lema_demanda_del_ultimo(clientes);
            lema_visitas_sin_el_ultimo(w, clientes);
            lema_visitas_completas(w, resto, deposito);
        }
    }
}

/// A feasible solution carries the total demand of the instance, so the
/// total demand is at most what its vehicles hold together, and at most
/// what the whole fleet holds.
pub proof fn ley_demanda_total(
    rutas: Seq<Seq<u32>>,
    clientes: Seq<Cliente>,
    deposito: u32,
    capacidad: u32,
    n_vehiculos: u32,
)
    requires
        sin_repetir(clientes),
        factible(rutas, clientes, deposito, capacidad, n_vehiculos),
    ensures
        demanda_de_rutas(rutas, clientes, deposito) == demanda_total(clientes, deposito),
        demanda_total(clientes, deposito) <= rutas.len() * capacidad,
        demanda_total(clientes, deposito) <= n_vehiculos * capacidad,
{
    lema_rutas_y_visitas(rutas, clientes, deposito);
    lema_visitas_completas(visitas(rutas, deposito), clientes, deposito);
    lema_rutas_acotadas(rutas, clientes, deposito, capacidad);
    assert(rutas.len() * capacidad <= n_vehiculos * capacidad) by (nonlinear_arith)
        requires
            0 <= rutas.len() <= n_vehiculos,
            0 <= capacidad,
    ;
}

/// When the customers demand more in total than the fleet can carry, no
/// solution is feasible, whatever its routes: every ant is evaluated as not
/// feasible, with the sentinel cost. With a fleet of one vehicle this is so
/// as soon as the total demand exceeds the capacity.
pub proof fn ley_flota_insuficiente(
    rutas: Seq<Seq<u32>>,
    cd: Seq<Seq<u64>>,
    clientes: Seq<Cliente>,
    deposito: u32,
    capacidad: u32,
    n_vehiculos: u32,
)
    requires
        sin_repetir(clientes),
        demanda_total(clientes, deposito) > n_vehiculos * capacidad,
    ensures
        !factible(rutas, clientes, deposito, capacidad, n_vehiculos),
        !evaluacion_de(rutas, cd, capacidad, n_vehiculos, clientes, deposito).es_factible,
        evaluacion_de(rutas, cd, capacidad, n_vehiculos, clientes, deposito).costo_total
            == u32::MAX,
{
    if factible(rutas, clientes, deposito, capacidad, n_vehiculos) {
        ley_demanda_total(rutas, clientes, deposito, capacidad, n_vehiculos);
    }
}

} // verus!

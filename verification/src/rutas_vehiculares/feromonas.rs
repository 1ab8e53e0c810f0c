use vstd::prelude::*;
use crate::azar::sortear_entre;
use crate::rutas_vehiculares::datos::{
    vista_hormigas, ConjuntoAristas, ConjuntoFeromonas, EvaluacionSolucion, Evaluaciones,
    FEROMONA_MILESIMA, FEROMONA_MINIMA, FEROMONA_UNIDAD, Hormigas, Rho,
};
use crate::tablas::{es_cuadrada, poner, tabla_uniforme, vista_tabla};

verus! {

/// A freshly drawn trail: between 0.010 and 0.100, in whole thousandths.
pub open spec fn es_feromona_inicial(f: int) -> bool {
    &&& 10 * FEROMONA_MILESIMA <= f <= 100 * FEROMONA_MILESIMA
    &&& f % (FEROMONA_MILESIMA as int) == 0
}

/// A pheromone field: square, zero from each node to itself, and the same in
/// both directions of every edge.
pub open spec fn es_campo(cf: Seq<Seq<u64>>) -> bool {
    &&& es_cuadrada(cf, cf.len() as int)
    &&& forall|i: int| 0 <= i < cf.len() ==> (#[trigger] cf[i])[i] == 0
    &&& forall|i: int, j: int|
        0 <= i < cf.len() && 0 <= j < cf.len() ==> #[trigger] cf[i][j] == cf[j][i]
}

/// No trail between two distinct nodes is below the floor.
pub open spec fn campo_sobre_minimo(cf: Seq<Seq<u64>>) -> bool {
    forall|i: int, j: int|
        0 <= i < cf.len() && 0 <= j < cf[i].len() && i != j ==> #[trigger] cf[i][j]
            >= FEROMONA_MINIMA
}

/// The pair `(i, j)` comes before `(a, b)` when a table is walked row by row.
spec fn antes_de(i: int, j: int, a: int, b: int) -> bool {
    i < a || (i == a && j < b)
}

/// A fresh pheromone field for the graph `ca`: every pair of distinct nodes
/// joined in either direction gets one trail drawn between 0.010 and 0.100
/// in thousandths, the same both ways; every other entry is 0.
pub fn algoritmo_inicializacion(ca: &ConjuntoAristas, rng: &mut rand::rngs::StdRng) -> (cf:
    ConjuntoFeromonas)
    requires
        es_cuadrada(vista_tabla(ca@), ca@.len() as int),
    ensures
        cf@.len() == ca@.len(),
        es_campo(vista_tabla(cf@)),
        forall|i: int, j: int|
            0 <= i < ca@.len() && 0 <= j < ca@.len() && i != j ==> if vista_tabla(ca@)[i][j] != 0
                || vista_tabla(ca@)[j][i] != 0 {
                es_feromona_inicial(#[trigger] vista_tabla(cf@)[i][j] as int)
            } else {
                vista_tabla(cf@)[i][j] == 0
            },
{
    let n: usize = ca.len();
    let mut cf: ConjuntoFeromonas = tabla_uniforme(n, 0u64);
    let mut i: usize = 0;
    while i < n
        invariant
            n == ca@.len(),
            es_cuadrada(vista_tabla(ca@), n as int),
            i <= n,
            campo_en_construccion(cf@, ca@, i as int, 0),
        decreases n - i,
    {
        let mut j: usize = 0;
        while j < n
            invariant
                n == ca@.len(),
                es_cuadrada(vista_tabla(ca@), n as int),
                i < n,
                j <= n,
                campo_en_construccion(cf@, ca@, i as int, j as int),
            decreases n - j,
        {
            assert(vista_tabla(ca@)[i as int].len() == n);
            if i != j && ca[i][j] != 0 {
                let miles: u64 = sortear_entre(rng, 10, 100);
                let feromona: u64 = miles * FEROMONA_MILESIMA;
                assert(es_feromona_inicial(feromona as int)) by (nonlinear_arith)
                    requires
                        10 <= miles <= 100,
                        feromona == miles * 1_000_000,
                        FEROMONA_MILESIMA == 1_000_000,
                ;
                let ghost antes = cf@;
                poner(&mut cf, i, j, feromona);
                let ghost medio = cf@;
                poner(&mut cf, j, i, feromona);
                assert forall|a: int, b: int| 0 <= a < n && 0 <= b < n implies #[trigger] cf@[a]@[b]
                    == (if (a == i && b == j) || (a == j && b == i) {
                    feromona
                } else {
                    antes[a]@[b]
                }) by {
                    if a == j {
                    } else if a == i {
                        assert(cf@[a] == medio[a]);
                    } else {
                        assert(cf@[a] == medio[a]);
                        assert(medio[a] == antes[a]);
                    }
                }
            }
            j += 1;
        }
        i += 1;
    }
    proof {
        let t = vista_tabla(cf@);
        assert forall|a: int, b: int| 0 <= a < n && 0 <= b < n && a != b implies if vista_tabla(
            ca@,
        )[a][b] != 0 || vista_tabla(ca@)[b][a] != 0 {
            es_feromona_inicial(#[trigger] t[a][b] as int)
        } else {
            t[a][b] == 0
        } by {
            assert(vista_tabla(ca@)[a].len() == n);
            assert(vista_tabla(ca@)[b].len() == n);
            assert(vista_tabla(ca@)[a][b] == ca@[a]@[b]);
            assert(vista_tabla(ca@)[b][a] == ca@[b]@[a]);
            assert(t[a][b] == cf@[a]@[b]);
            assert(cf@[a]@[b] == cf@[b]@[a]);
            assert(antes_de(a, b, n as int, 0));
            assert(antes_de(b, a, n as int, 0));
        }
        assert forall|a: int, b: int| 0 <= a < t.len() && 0 <= b < t.len() implies #[trigger] t[a][b]
            == t[b][a] by {
            assert(cf@[a]@[b] == cf@[b]@[a]);
        }
        assert forall|a: int| 0 <= a < t.len() implies (#[trigger] t[a])[a] == 0 by {
            assert(cf@[a]@[a] == 0);
        }
    }
    cf
}

/// What holds of the field while its pairs are drawn row by row, just before
/// the pair `(i, j)` is looked at.
spec fn campo_en_construccion(
    cf: Seq<Vec<u64>>,
    ca: Seq<Vec<u32>>,
    i: int,
    j: int,
) -> bool {
    &&& cf.len() == ca.len()
    &&& forall|a: int| 0 <= a < cf.len() ==> (#[trigger] cf[a])@.len() == cf.len()
    &&& forall|a: int, b: int|
        0 <= a < cf.len() && 0 <= b < cf.len() ==> {
            &&& #[trigger] cf[a]@[b] == cf[b]@[a]
            &&& a == b ==> cf[a]@[b] == 0
            &&& cf[a]@[b] == 0 || es_feromona_inicial(cf[a]@[b] as int)
            &&& cf[a]@[b] != 0 ==> ca[a]@[b] != 0 || ca[b]@[a] != 0
            &&& a != b && ca[a]@[b] != 0 && antes_de(a, b, i, j) ==> cf[a]@[b] != 0
        }
}

/// A trail after one evaporation at rate `rho`: what is left of it, and the
/// floor if that is less.
pub open spec fn evaporada(f: u64, rho: u64) -> int {
    let queda: int = if rho >= FEROMONA_UNIDAD {
        0
    } else {
        FEROMONA_UNIDAD - rho
    };
    let v: int = (f * queda) / (FEROMONA_UNIDAD as int);
    if v < FEROMONA_MINIMA {
        FEROMONA_MINIMA as int
    } else {
        v
    }
}

/// With a rate strictly between 0 and 1 a trail either shrinks or sits
/// exactly on the floor, and it never ends below the floor.
pub proof fn ley_evaporacion(f: u64, rho: u64)
    requires
        0 < rho < FEROMONA_UNIDAD,
    ensures
        evaporada(f, rho) < f || evaporada(f, rho) == FEROMONA_MINIMA,
        evaporada(f, rho) >= FEROMONA_MINIMA,
{
    let queda: int = FEROMONA_UNIDAD - rho;
    let v: int = (f * queda) / (FEROMONA_UNIDAD as int);
    if f > 0 {
        assert(v < f) by (nonlinear_arith)
            requires
                0 < queda < 1_000_000_000,
                f > 0,
                v == (f * queda) / 1_000_000_000,
        ;
    }
}

/// No evaporation makes a trail grow past what it was or past the floor.
pub proof fn lema_evaporada_acotada(f: u64, rho: u64)
    ensures
        FEROMONA_MINIMA <= evaporada(f, rho),
        evaporada(f, rho) <= f || evaporada(f, rho) == FEROMONA_MINIMA,
{
    let queda: int = if rho >= FEROMONA_UNIDAD {
        0
    } else {
        FEROMONA_UNIDAD - rho
    };
    let v: int = (f * queda) / (FEROMONA_UNIDAD as int);
    assert(v <= f) by (nonlinear_arith)
        requires
            0 <= queda <= 1_000_000_000,
            f >= 0,
            v == (f * queda) / 1_000_000_000,
    ;
}

/// One trail evaporated at rate `rho`.
fn evaporar(f: u64, rho: u64) -> (r: u64)
    ensures
        r == evaporada(f, rho),
{
    let queda: u64 = if rho >= FEROMONA_UNIDAD {
        0
    } else {
        FEROMONA_UNIDAD - rho
    };
    proof {
        lema_evaporada_acotada(f, rho);
        assert(f * queda <= 0xffff_ffff_ffff_ffff * 1_000_000_000) by (nonlinear_arith)
            requires
                0 <= f <= 0xffff_ffff_ffff_ffff,
                0 <= queda <= 1_000_000_000,
        ;
    }
    let producto: u128 = (f as u128) * (queda as u128);
    let v: u128 = producto / (FEROMONA_UNIDAD as u128);
    if v < FEROMONA_MINIMA as u128 {
        FEROMONA_MINIMA
    } else {
        v as u64
    }
}

/// The field after every trail between two distinct nodes evaporated at
/// rate `rho`; the entries from a node to itself stay as they are.
pub open spec fn campo_evaporado(cf: Seq<Seq<u64>>, rho: u64) -> Seq<Seq<u64>> {
    Seq::new(
        cf.len(),
        |i: int|
            Seq::new(
                cf[i].len(),
                |j: int|
                    if i == j {
                        cf[i][j]
                    } else {
                        evaporada(cf[i][j], rho) as u64
                    },
            ),
    )
}

/// Evaporates every trail between two distinct nodes at rate `p`, entry by
/// entry.
fn evaporar_campo(cf: &mut ConjuntoFeromonas, p: Rho)
    ensures
        final(cf)@.len() == old(cf)@.len(),
        forall|i: int|
            0 <= i < old(cf)@.len() ==> (#[trigger] final(cf)@[i])@.len() == old(cf)@[i]@.len(),
        forall|i: int, j: int|
            0 <= i < old(cf)@.len() && 0 <= j < old(cf)@[i]@.len() ==> #[trigger] final(cf)@[i]@[j] == (if i == j {
                old(cf)@[i]@[j] as int
            } else {
                evaporada(old(cf)@[i]@[j], p)
            }),
{
    let n: usize = cf.len();
    let mut i: usize = 0;
    while i < n
        invariant
            n == old(cf)@.len(),
            cf@.len() == n,
            i <= n,
            forall|a: int| 0 <= a < n ==> (#[trigger] cf@[a])@.len() == old(cf)@[a]@.len(),
            forall|a: int, b: int|
                0 <= a < n && 0 <= b < old(cf)@[a]@.len() ==> #[trigger] cf@[a]@[b] == (if a >= i
                    || a == b {
                    old(cf)@[a]@[b] as int
                } else {
                    evaporada(old(cf)@[a]@[b], p)
                }),
        decreases n - i,
    {
        let m: usize = cf[i].len();
        let mut j: usize = 0;
        while j < m
            invariant
                n == old(cf)@.len(),
                cf@.len() == n,
                i < n,
                m == old(cf)@[i as int]@.len(),
                j <= m,
                forall|a: int| 0 <= a < n ==> (#[trigger] cf@[a])@.len() == old(cf)@[a]@.len(),
                forall|a: int, b: int|
                    0 <= a < n && 0 <= b < old(cf)@[a]@.len() ==> #[trigger] cf@[a]@[b] == (if a
                        > i || a == b || (a == i && b >= j) {
                        old(cf)@[a]@[b] as int
                    } else {
                        evaporada(old(cf)@[a]@[b], p)
                    }),
            decreases m - j,
        {
            if i != j {
                let nuevo: u64 = evaporar(cf[i][j], p);
                let ghost antes = cf@;
                poner(cf, i, j, nuevo);
                assert forall|a: int, b: int|
                    0 <= a < n && 0 <= b < old(cf)@[a]@.len() implies #[trigger] cf@[a]@[b] == (if a
                    == i && b == j {
                    nuevo
                } else {
                    antes[a]@[b]
                }) by {
                    if a != i {
                        assert(cf@[a] == antes[a]);
                    }
                }
            }
            j += 1;
        }
        i += 1;
    }
}

/// Evaporates every trail between two distinct nodes at rate `p`: the trail
/// is multiplied by one minus the rate and raised to the floor if it fell
/// below; the entries from a node to itself stay as they are. With a rate
/// strictly between 0 and 1 every such trail either shrinks or sits exactly
/// on the floor.
pub fn evapozacion_feromona(_ca: &ConjuntoAristas, cf: &mut ConjuntoFeromonas, p: Rho)
    ensures
        vista_tabla(final(cf)@) == campo_evaporado(vista_tabla(old(cf)@), p),
        campo_sobre_minimo(vista_tabla(final(cf)@)),
        es_campo(vista_tabla(old(cf)@)) ==> es_campo(vista_tabla(final(cf)@)),
        0 < p < FEROMONA_UNIDAD ==> forall|i: int, j: int|
            0 <= i < old(cf)@.len() && 0 <= j < old(cf)@[i]@.len() && i != j ==> {
                ||| #[trigger] vista_tabla(final(cf)@)[i][j] < vista_tabla(old(cf)@)[i][j]
                ||| vista_tabla(final(cf)@)[i][j] == FEROMONA_MINIMA
            },
{
    evaporar_campo(cf, p);
    proof {
        let antes = vista_tabla(old(cf)@);
        let t = vista_tabla(cf@);
        let esperado = campo_evaporado(antes, p);
        assert forall|a: int| 0 <= a < t.len() implies #[trigger] t[a] =~= esperado[a] by {
            assert(cf@[a]@.len() == old(cf)@[a]@.len());
            assert forall|b: int| 0 <= b < t[a].len() implies t[a][b] == esperado[a][b] by {
                assert(t[a][b] == cf@[a]@[b]);
                lema_evaporada_acotada(old(cf)@[a]@[b], p);
            }
        }
        assert(t =~= esperado);
        assert forall|a: int, b: int| 0 <= a < t.len() && 0 <= b < t[a].len() && a != b implies #[trigger] t[a][b]
            >= FEROMONA_MINIMA by {
            assert(t[a][b] == cf@[a]@[b]);
            lema_evaporada_acotada(old(cf)@[a]@[b], p);
        }
        if 0 < p < FEROMONA_UNIDAD {
            assert forall|a: int, b: int|
                0 <= a < old(cf)@.len() && 0 <= b < old(cf)@[a]@.len() && a != b implies {
                ||| #[trigger] t[a][b] < antes[a][b]
                ||| t[a][b] == FEROMONA_MINIMA
            } by {
                assert(t[a][b] == cf@[a]@[b]);
                ley_evaporacion(old(cf)@[a]@[b], p);
            }
        }
        if es_campo(antes) {
            assert forall|a: int| 0 <= a < t.len() implies (#[trigger] t[a]).len() == t.len() by {
                assert(antes[a].len() == antes.len());
                assert(cf@[a]@.len() == old(cf)@[a]@.len());
            }
            assert forall|a: int| 0 <= a < t.len() implies (#[trigger] t[a])[a] == 0 by {
                assert(antes[a].len() == antes.len());
                assert(antes[a][a] == 0);
                assert(cf@[a]@[a] == old(cf)@[a]@[a]);
            }
            assert forall|a: int, b: int| 0 <= a < t.len() && 0 <= b < t.len() implies #[trigger] t[a][b]
                == t[b][a] by {
                assert(antes[a].len() == antes.len());
                assert(antes[b].len() == antes.len());
                assert(antes[a][b] == antes[b][a]);
                assert(t[a][b] == cf@[a]@[b]);
                assert(t[b][a] == cf@[b]@[a]);
            }
        }
    }
}

/// A step from node `o` to node `d` runs along the edge between the nodes
/// that own rows `i` and `j`, in either direction. A step from a node to
/// itself runs along no edge.
pub open spec fn recorre(o: u32, d: u32, i: int, j: int) -> bool {
    o != d && ((o - 1 == i && d - 1 == j) || (o - 1 == j && d - 1 == i))
}

/// What a route leaves on the trail between rows `i` and `j` when each of its
/// steps leaves `aporte`.
pub open spec fn deposito_de_ruta(ruta: Seq<u32>, aporte: int, i: int, j: int) -> int
    decreases ruta.len(),
{
    if ruta.len() < 2 {
        0
    } else {
        deposito_de_ruta(ruta.drop_last(), aporte, i, j) + (if recorre(
            ruta[ruta.len() - 2],
            ruta[ruta.len() - 1],
            i,
            j,
        ) {
            aporte
        } else {
            0
        })
    }
}

/// What all the routes of one ant leave on the trail between rows `i` and `j`.
pub open spec fn deposito_de_rutas(rutas: Seq<Seq<u32>>, aporte: int, i: int, j: int) -> int
    decreases rutas.len(),
{
    if rutas.len() == 0 {
        0
    } else {
        deposito_de_rutas(rutas.drop_last(), aporte, i, j) + deposito_de_ruta(
            rutas.last(),
            aporte,
            i,
            j,
        )
    }
}

/// What each step of an ant of the given cost leaves: one over the cost. A
/// cost of zero leaves as much as a trail can hold.
pub open spec fn aporte_de(costo: u32) -> int {
    if costo == 0 {
        u64::MAX as int
    } else {
        FEROMONA_UNIDAD as int / costo as int
    }
}

/// What a colony leaves on the trail between rows `i` and `j`: the sum over
/// its feasible ants; an ant without an evaluation leaves nothing.
pub open spec fn deposito_total(
    hormigas: Seq<Seq<Seq<u32>>>,
    evaluaciones: Seq<EvaluacionSolucion>,
    i: int,
    j: int,
) -> int
    decreases hormigas.len(),
{
    if hormigas.len() == 0 {
        0
    } else {
        let k = hormigas.len() - 1;
        deposito_total(hormigas.drop_last(), evaluaciones, i, j) + (if k < evaluaciones.len()
            && evaluaciones[k].es_factible {
            deposito_de_rutas(hormigas[k], aporte_de(evaluaciones[k].costo_total), i, j)
        } else {
            0
        })
    }
}

/// A trail holds at most `u64::MAX`.
pub open spec fn saturada(x: int) -> int {
    if x > u64::MAX {
        u64::MAX as int
    } else {
        x
    }
}

/// `despues` is `antes` with `suma(i, j)` added to every entry, as far as a
/// trail can hold it.
spec fn es_deposito(
    antes: Seq<Vec<u64>>,
    despues: Seq<Vec<u64>>,
    suma: spec_fn(int, int) -> int,
) -> bool {
    &&& despues.len() == antes.len()
    &&& forall|a: int| 0 <= a < antes.len() ==> (#[trigger] despues[a])@.len() == antes[a]@.len()
    &&& forall|a: int, b: int|
        0 <= a < antes.len() && 0 <= b < antes[a]@.len() ==> #[trigger] despues[a]@[b]
            == saturada(antes[a]@[b] + suma(a, b))
}

proof fn lema_deposito_de_ruta(ruta: Seq<u32>, aporte: int, i: int, j: int)
    requires
        aporte >= 0,
    ensures
        deposito_de_ruta(ruta, aporte, i, j) >= 0,
        deposito_de_ruta(ruta, aporte, i, j) == deposito_de_ruta(ruta, aporte, j, i),
        i == j ==> deposito_de_ruta(ruta, aporte, i, j) == 0,
    decreases ruta.len(),
{
    if ruta.len() >= 2 {
        lema_deposito_de_ruta(ruta.drop_last(), aporte, i, j);
    }
}

proof fn lema_deposito_de_rutas(rutas: Seq<Seq<u32>>, aporte: int, i: int, j: int)
    requires
        aporte >= 0,
    ensures
        deposito_de_rutas(rutas, aporte, i, j) >= 0,
        deposito_de_rutas(rutas, aporte, i, j) == deposito_de_rutas(rutas, aporte, j, i),
        i == j ==> deposito_de_rutas(rutas, aporte, i, j) == 0,
    decreases rutas.len(),
{
    if rutas.len() > 0 {
        lema_deposito_de_rutas(rutas.drop_last(), aporte, i, j);
        lema_deposito_de_ruta(rutas.last(), aporte, i, j);
    }
}

/// A deposit never takes from a trail, leaves the same on both directions of
/// an edge, and leaves nothing from a node to itself.
pub proof fn ley_deposito_simetrico(
    hormigas: Seq<Seq<Seq<u32>>>,
    evaluaciones: Seq<EvaluacionSolucion>,
    i: int,
    j: int,
)
    ensures
        deposito_total(hormigas, evaluaciones, i, j) >= 0,
        deposito_total(hormigas, evaluaciones, i, j) == deposito_total(
            hormigas,
            evaluaciones,
            j,
            i,
        ),
        i == j ==> deposito_total(hormigas, evaluaciones, i, j) == 0,
    decreases hormigas.len(),
{
    if hormigas.len() > 0 {
        let k = hormigas.len() - 1;
        ley_deposito_simetrico(hormigas.drop_last(), evaluaciones, i, j);
        if k < evaluaciones.len() && evaluaciones[k].es_factible {
            lema_deposito_de_rutas(hormigas[k], aporte_de(evaluaciones[k].costo_total), i, j);
        }
    }
}

/// Adds `aporte` to both directions of the edge from `o` to `d`, if both
/// nodes have a row in the field and are not the same node.
fn depositar_paso(cf: &mut ConjuntoFeromonas, o: u32, d: u32, aporte: u64)
    requires
        es_cuadrada(vista_tabla(old(cf)@), old(cf)@.len() as int),
    ensures
        es_deposito(
            old(cf)@,
            final(cf)@,
            |a: int, b: int|
                if recorre(o, d, a, b) {
                    aporte as int
                } else {
                    0
                },
        ),
{
    let n: usize = cf.len();
    if o != d && o >= 1 && d >= 1 && ((o - 1) as usize) < n && ((d - 1) as usize) < n {
        let i: usize = (o - 1) as usize;
        let j: usize = (d - 1) as usize;
        assert(vista_tabla(cf@)[i as int].len() == n);
        assert(vista_tabla(cf@)[j as int].len() == n);
        let ij: u64 = cf[i][j].saturating_add(aporte);
        let ji: u64 = cf[j][i].saturating_add(aporte);
        let ghost antes = cf@;
        poner(cf, i, j, ij);
        let ghost medio = cf@;
        poner(cf, j, i, ji);
        assert forall|a: int, b: int| 0 <= a < n && 0 <= b < antes[a]@.len() implies #[trigger] cf@[a]@[b]
            == saturada(
            antes[a]@[b] + (if recorre(o, d, a, b) {
                aporte as int
            } else {
                0
            }),
        ) by {
            assert(vista_tabla(antes)[a].len() == n);
            if a == j {
            } else if a == i {
                assert(cf@[a] == medio[a]);
            } else {
                assert(cf@[a] == medio[a]);
                assert(medio[a] == antes[a]);
            }
        }
        assert forall|a: int| 0 <= a < n implies (#[trigger] cf@[a])@.len() == antes[a]@.len() by {
            if a == j {
            } else if a == i {
                assert(cf@[a] == medio[a]);
            } else {
                assert(cf@[a] == medio[a]);
                assert(medio[a] == antes[a]);
            }
        }
    } else {
        assert forall|a: int, b: int| 0 <= a < n && 0 <= b < cf@[a]@.len() implies !recorre(
            o,
            d,
            a,
            b,
        ) by {
            assert(vista_tabla(cf@)[a].len() == n);
        }
    }
}

/// A field that received a deposit has the shape it had.
proof fn lema_deposito_cuadrado(
    antes: Seq<Vec<u64>>,
    despues: Seq<Vec<u64>>,
    suma: spec_fn(int, int) -> int,
)
    requires
        es_cuadrada(vista_tabla(antes), antes.len() as int),
        es_deposito(antes, despues, suma),
    ensures
        es_cuadrada(vista_tabla(despues), despues.len() as int),
{
    assert forall|a: int| 0 <= a < despues.len() implies (#[trigger] vista_tabla(despues)[a]).len()
        == despues.len() by {
        assert(vista_tabla(antes)[a].len() == antes.len());
        assert(despues[a]@.len() == antes[a]@.len());
    }
}

/// Two deposits, one after the other, are the deposit of their sum.
proof fn lema_deposito_compuesto(
    antes: Seq<Vec<u64>>,
    medio: Seq<Vec<u64>>,
    despues: Seq<Vec<u64>>,
    primera: spec_fn(int, int) -> int,
    segunda: spec_fn(int, int) -> int,
    suma: spec_fn(int, int) -> int,
)
    requires
        es_deposito(antes, medio, primera),
        es_deposito(medio, despues, segunda),
        forall|a: int, b: int| #[trigger] primera(a, b) >= 0,
        forall|a: int, b: int| #[trigger] segunda(a, b) >= 0,
        forall|a: int, b: int| #[trigger] suma(a, b) == primera(a, b) + segunda(a, b),
    ensures
        es_deposito(antes, despues, suma),
{
    assert forall|a: int| 0 <= a < antes.len() implies (#[trigger] despues[a])@.len()
        == antes[a]@.len() by {
        assert(medio[a]@.len() == antes[a]@.len());
    }
    assert forall|a: int, b: int| 0 <= a < antes.len() && 0 <= b < antes[a]@.len() implies #[trigger] despues[a]@[b]
        == saturada(antes[a]@[b] + suma(a, b)) by {
        assert(medio[a]@.len() == antes[a]@.len());
        assert(medio[a]@[b] == saturada(antes[a]@[b] + primera(a, b)));
        assert(despues[a]@[b] == saturada(medio[a]@[b] + segunda(a, b)));
        assert(primera(a, b) >= 0 && segunda(a, b) >= 0);
        assert(suma(a, b) == primera(a, b) + segunda(a, b));
    }
}

/// Leaves `aporte` on every edge that the route runs along.
fn depositar_ruta(cf: &mut ConjuntoFeromonas, ruta: &Vec<u32>, aporte: u64)
    requires
        es_cuadrada(vista_tabla(old(cf)@), old(cf)@.len() as int),
    ensures
        es_deposito(
            old(cf)@,
            final(cf)@,
            |a: int, b: int| deposito_de_ruta(ruta@, aporte as int, a, b),
        ),
{
    let largo: usize = ruta.len();
    if largo < 2 {
        return ;
    }
    let mut k: usize = 1;
    assert(ruta@.take(1).len() < 2);
    while k < largo
        invariant
            largo == ruta@.len(),
            1 <= k <= largo,
            es_cuadrada(vista_tabla(old(cf)@), old(cf)@.len() as int),
            es_deposito(
                old(cf)@,
                cf@,
                |a: int, b: int| deposito_de_ruta(ruta@.take(k as int), aporte as int, a, b),
            ),
        decreases largo - k,
    {
        let ghost medio = cf@;
        let ghost primera = |a: int, b: int|
            deposito_de_ruta(ruta@.take(k as int), aporte as int, a, b);
        let ghost segunda = |a: int, b: int|
            if recorre(ruta@[k as int - 1], ruta@[k as int], a, b) {
                aporte as int
            } else {
                0
            };
        let ghost suma = |a: int, b: int|
            deposito_de_ruta(ruta@.take(k as int + 1), aporte as int, a, b);
        proof {
            lema_deposito_cuadrado(old(cf)@, cf@, primera);
        }
        depositar_paso(cf, ruta[k - 1], ruta[k], aporte);
        proof {
            assert(ruta@.take(k as int + 1).drop_last() =~= ruta@.take(k as int));
            assert forall|a: int, b: int| #[trigger] primera(a, b) >= 0 by {
                lema_deposito_de_ruta(ruta@.take(k as int), aporte as int, a, b);
            }
            assert forall|a: int, b: int| #[trigger] segunda(a, b) >= 0 by {
                lema_deposito_de_ruta(ruta@.take(k as int), aporte as int, a, b);
            }
            lema_deposito_compuesto(old(cf)@, medio, cf@, primera, segunda, suma);
        }
        k += 1;
    }
    assert(ruta@.take(largo as int) =~= ruta@);
}

/// Leaves `aporte` on every edge that any of the routes runs along.
fn depositar_hormiga(cf: &mut ConjuntoFeromonas, rutas: &Vec<Vec<u32>>, aporte: u64)
    requires
        es_cuadrada(vista_tabla(old(cf)@), old(cf)@.len() as int),
    ensures
        es_deposito(
            old(cf)@,
            final(cf)@,
            |a: int, b: int| deposito_de_rutas(vista_tabla(rutas@), aporte as int, a, b),
        ),
{
    let total: usize = rutas.len();
    let ghost vistas = vista_tabla(rutas@);
    let mut r: usize = 0;
    while r < total
        invariant
            total == rutas@.len(),
            vistas == vista_tabla(rutas@),
            r <= total,
            es_cuadrada(vista_tabla(old(cf)@), old(cf)@.len() as int),
            es_deposito(
                old(cf)@,
                cf@,
                |a: int, b: int| deposito_de_rutas(vistas.take(r as int), aporte as int, a, b),
            ),
        decreases total - r,
    {
        let ghost medio = cf@;
        let ghost primera = |a: int, b: int|
            deposito_de_rutas(vistas.take(r as int), aporte as int, a, b);
        let ghost segunda = |a: int, b: int|
            deposito_de_ruta(rutas@[r as int]@, aporte as int, a, b);
        let ghost suma = |a: int, b: int|
            deposito_de_rutas(vistas.take(r as int + 1), aporte as int, a, b);
        proof {
            lema_deposito_cuadrado(old(cf)@, cf@, primera);
        }
        depositar_ruta(cf, &rutas[r], aporte);
        proof {
            assert(vistas.take(r as int + 1).drop_last() =~= vistas.take(r as int));
            assert(vistas.take(r as int + 1).last() == rutas@[r as int]@);
            assert forall|a: int, b: int| #[trigger] primera(a, b) >= 0 by {
                lema_deposito_de_rutas(vistas.take(r as int), aporte as int, a, b);
                lema_deposito_de_ruta(rutas@[r as int]@, aporte as int, a, b);
            }
            assert forall|a: int, b: int| #[trigger] segunda(a, b) >= 0 by {
                lema_deposito_de_rutas(vistas.take(r as int), aporte as int, a, b);
                lema_deposito_de_ruta(rutas@[r as int]@, aporte as int, a, b);
            }
            lema_deposito_compuesto(old(cf)@, medio, cf@, primera, segunda, suma);
        }
        r += 1;
    }
    assert(vistas.take(total as int) =~= vistas);
}

/// What each step of an ant of the given cost leaves.
fn calcular_aporte(costo: u32) -> (aporte: u64)
    ensures
        aporte == aporte_de(costo),
{
    if costo == 0 {
        u64::MAX
    } else {
        FEROMONA_UNIDAD / (costo as u64)
    }
}

/// Adds the deposit of every feasible ant, ant by ant.
fn depositar_colonia(h: &Hormigas, cf: &mut ConjuntoFeromonas, evaluaciones: &Evaluaciones)
    requires
        es_cuadrada(vista_tabla(old(cf)@), old(cf)@.len() as int),
    ensures
        es_deposito(
            old(cf)@,
            final(cf)@,
            |a: int, b: int| deposito_total(vista_hormigas(h@), evaluaciones@, a, b),
        ),
{
    let total: usize = h.len();
    let ghost vistas = vista_hormigas(h@);
    let mut k: usize = 0;
    while k < total
        invariant
            total == h@.len(),
            vistas == vista_hormigas(h@),
            k <= total,
            es_cuadrada(vista_tabla(old(cf)@), old(cf)@.len() as int),
            es_deposito(
                old(cf)@,
                cf@,
                |a: int, b: int| deposito_total(vistas.take(k as int), evaluaciones@, a, b),
            ),
        decreases total - k,
    {
        let ghost medio = cf@;
        let ghost primera = |a: int, b: int|
            deposito_total(vistas.take(k as int), evaluaciones@, a, b);
        let ghost suma = |a: int, b: int|
            deposito_total(vistas.take(k as int + 1), evaluaciones@, a, b);
        proof {
            assert(vistas.take(k as int + 1).drop_last() =~= vistas.take(k as int));
            assert(vistas.take(k as int + 1)[k as int] == h@[k as int]@);
        }
        if k < evaluaciones.len() && evaluaciones[k].es_factible {
            let aporte: u64 = calcular_aporte(evaluaciones[k].costo_total);
            let ghost segunda = |a: int, b: int|
                deposito_de_rutas(h@[k as int]@, aporte as int, a, b);
            proof {
                lema_deposito_cuadrado(old(cf)@, cf@, primera);
            }
            depositar_hormiga(cf, &h[k].rutas, aporte);
            proof {
                assert forall|a: int, b: int| #[trigger] primera(a, b) >= 0 by {
                    ley_deposito_simetrico(vistas.take(k as int), evaluaciones@, a, b);
                    lema_deposito_de_rutas(h@[k as int]@, aporte as int, a, b);
                }
                assert forall|a: int, b: int| #[trigger] segunda(a, b) >= 0 by {
                    ley_deposito_simetrico(vistas.take(k as int), evaluaciones@, a, b);
                    lema_deposito_de_rutas(h@[k as int]@, aporte as int, a, b);
                }
                lema_deposito_compuesto(old(cf)@, medio, cf@, primera, segunda, suma);
            }
        } else {
            assert forall|a: int, b: int| #[trigger] suma(a, b) == primera(a, b) by {}
            assert(es_deposito(old(cf)@, cf@, suma));
        }
        k += 1;
    }
    proof {
        assert(vistas.take(total as int) =~= vistas);
    }
}

/// The field after the colony's deposit: every entry with what the feasible
/// ants leave on it added, as far as a trail can hold it.
pub open spec fn campo_depositado(
    cf: Seq<Seq<u64>>,
    hormigas: Seq<Seq<Seq<u32>>>,
    evaluaciones: Seq<EvaluacionSolucion>,
) -> Seq<Seq<u64>> {
    Seq::new(
        cf.len(),
        |i: int|
            Seq::new(
                cf[i].len(),
                |j: int| saturada(cf[i][j] + deposito_total(hormigas, evaluaciones, i, j)) as u64,
            ),
    )
}

/// Reinforces the field with the colony's solutions: every feasible ant adds
/// one over its cost to both directions of each edge that its routes run
/// along. Ants that are not feasible, or that have no evaluation, add
/// nothing; a step from a node to itself, or to a node without a row in the
/// field, leaves nothing.
pub fn actualizacion_feromona(
    h: &Hormigas,
    cf: &mut ConjuntoFeromonas,
    evaluaciones: &Evaluaciones,
)
    requires
        es_cuadrada(vista_tabla(old(cf)@), old(cf)@.len() as int),
    ensures
        vista_tabla(final(cf)@) == campo_depositado(
            vista_tabla(old(cf)@),
            vista_hormigas(h@),
            evaluaciones@,
        ),
        es_campo(vista_tabla(old(cf)@)) ==> es_campo(vista_tabla(final(cf)@)),
        campo_sobre_minimo(vista_tabla(old(cf)@)) ==> campo_sobre_minimo(
            vista_tabla(final(cf)@),
        ),
{
    depositar_colonia(h, cf, evaluaciones);
    proof {
        let antes = vista_tabla(old(cf)@);
        let t = vista_tabla(cf@);
        let esperado = campo_depositado(antes, vista_hormigas(h@), evaluaciones@);
        assert forall|a: int| 0 <= a < t.len() implies #[trigger] t[a] =~= esperado[a] by {
            assert(cf@[a]@.len() == old(cf)@[a]@.len());
            assert forall|b: int| 0 <= b < t[a].len() implies t[a][b] == esperado[a][b] by {
                assert(t[a][b] == cf@[a]@[b]);
                ley_deposito_simetrico(vista_hormigas(h@), evaluaciones@, a, b);
            }
        }
        assert(t =~= esperado);
        lema_deposito_conserva(old(cf)@, cf@, vista_hormigas(h@), evaluaciones@);
    }
}

/// A deposit keeps a field a field, and keeps it above the floor.
proof fn lema_deposito_conserva(
    antes: Seq<Vec<u64>>,
    despues: Seq<Vec<u64>>,
    hormigas: Seq<Seq<Seq<u32>>>,
    evaluaciones: Seq<EvaluacionSolucion>,
)
    requires
        es_deposito(
            antes,
            despues,
            |a: int, b: int| deposito_total(hormigas, evaluaciones, a, b),
        ),
    ensures
        es_campo(vista_tabla(antes)) ==> es_campo(vista_tabla(despues)),
        campo_sobre_minimo(vista_tabla(antes)) ==> campo_sobre_minimo(vista_tabla(despues)),
{
    let suma = |a: int, b: int| deposito_total(hormigas, evaluaciones, a, b);
    let t0 = vista_tabla(antes);
    let t1 = vista_tabla(despues);
    if campo_sobre_minimo(t0) {
        assert forall|a: int, b: int| 0 <= a < t1.len() && 0 <= b < t1[a].len() && a != b implies #[trigger] t1[a][b]
            >= FEROMONA_MINIMA by {
            assert(despues[a]@.len() == antes[a]@.len());
            assert(t0[a][b] >= FEROMONA_MINIMA);
            assert(despues[a]@[b] == saturada(antes[a]@[b] + suma(a, b)));
            ley_deposito_simetrico(hormigas, evaluaciones, a, b);
        }
    }
    if es_campo(t0) {
        lema_deposito_cuadrado(antes, despues, suma);
        assert forall|a: int| 0 <= a < t1.len() implies (#[trigger] t1[a])[a] == 0 by {
            assert(t0[a].len() == t0.len());
            assert(t0[a][a] == 0);
            assert(despues[a]@[a] == saturada(antes[a]@[a] + suma(a, a)));
            ley_deposito_simetrico(hormigas, evaluaciones, a, a);
        }
        assert forall|a: int, b: int| 0 <= a < t1.len() && 0 <= b < t1.len() implies #[trigger] t1[a][b]
            == t1[b][a] by {
            assert(t0[a].len() == t0.len());
            assert(t0[b].len() == t0.len());
            assert(t0[a][b] == t0[b][a]);
            assert(despues[a]@[b] == saturada(antes[a]@[b] + suma(a, b)));
            assert(despues[b]@[a] == saturada(antes[b]@[a] + suma(b, a)));
            ley_deposito_simetrico(hormigas, evaluaciones, a, b);
        }
    }
}

} // verus!

use vstd::prelude::*;
use crate::rutas_vehiculares::datos::{
    vista_hormigas, COSTO_CENTINELA, Camino, Cliente, ConjuntoDistancias, EvaluacionSolucion,
    Evaluaciones, Hormigas, NodoId,
};
use crate::rutas_vehiculares::rutas::{
    clientes_de_ruta, cobertura, costo_de_ruta, costo_de_rutas, demanda_de, demanda_de_ruta,
    dentro_de_capacidad, es_cliente, factible, instancia_en_tabla, lema_abre_conserva,
    lema_abre_visitas, lema_demanda_crece, lema_nodo_visitado, lema_un_nodo_mas, lema_un_paso_mas,
    lema_una_ruta_mas, visitas,
};
use crate::tablas::{es_cuadrada, tope, vista_tabla};

verus! {

/// The evaluation of one ant's routes: the vehicles it uses, whether it is
/// feasible, and its total cost if it is, the sentinel if it is not.
pub open spec fn evaluacion_de(
    rutas: Seq<Seq<u32>>,
    cd: Seq<Seq<u64>>,
    capacidad: u32,
    n_vehiculos: u32,
    clientes: Seq<Cliente>,
    deposito: u32,
) -> EvaluacionSolucion {
    let f = factible(rutas, clientes, deposito, capacidad, n_vehiculos);
    EvaluacionSolucion {
        costo_total: if f {
            tope(costo_de_rutas(rutas, cd))
        } else {
            COSTO_CENTINELA
        },
        vehiculos_usados: tope(rutas.len() as int),
        es_factible: f,
    }
}

/// The demand listed for `id`, if the node is listed at all.
pub fn buscar_demanda(clientes: &Vec<Cliente>, id: NodoId) -> (r: Option<u32>)
    ensures
        r is Some <==> exists|k: int| 0 <= k < clientes@.len() && (#[trigger] clientes@[k]).id == id,
        r is Some ==> r->0 == demanda_de(clientes@, id),
        r is None ==> demanda_de(clientes@, id) == 0,
{
    let n: usize = clientes.len();
    let mut k: usize = 0;
    assert(clientes@.skip(0) =~= clientes@);
    while k < n
        invariant
            n == clientes@.len(),
            k <= n,
            forall|a: int| 0 <= a < k ==> (#[trigger] clientes@[a]).id != id,
            demanda_de(clientes@, id) == demanda_de(clientes@.skip(k as int), id),
        decreases n - k,
    {
        assert(clientes@.skip(k as int).drop_first() =~= clientes@.skip(k as int + 1));
        assert(clientes@.skip(k as int)[0] == clientes@[k as int]);
        if clientes[k].id == id {
            return Some(clientes[k].demanda);
        }
        k += 1;
    }
    None
}

/// Whether `x` occurs in `v`.
pub fn contiene(v: &Vec<u32>, x: u32) -> (b: bool)
    ensures
        b == v@.contains(x),
{
    let n: usize = v.len();
    let mut k: usize = 0;
    while k < n
        invariant
            n == v@.len(),
            k <= n,
            forall|a: int| 0 <= a < k ==> v@[a] != x,
        decreases n - k,
    {
        if v[k] == x {
            return true;
        }
        k += 1;
    }
    false
}

/// Whether the routes overload no vehicle and visit every customer exactly
/// once.
fn revisar_rutas(rutas: &Vec<Camino>, capacidad: u32, clientes: &Vec<Cliente>, deposito: NodoId) -> (ok:
    bool)
    ensures
        ok == (dentro_de_capacidad(vista_tabla(rutas@), clientes@, deposito, capacidad)
            && cobertura(vista_tabla(rutas@), clientes@, deposito)),
{
    let ghost vista = vista_tabla(rutas@);
    let total: usize = rutas.len();
    let mut vistos: Vec<u32> = Vec::new();
    let mut r: usize = 0;
    while r < total
        invariant
            vista == vista_tabla(rutas@),
            total == rutas@.len(),
            r <= total,
            vistos@ == visitas(vista.take(r as int), deposito),
            vistos@.no_duplicates(),
            forall|x: u32| vistos@.contains(x) ==> es_cliente(clientes@, deposito, x),
            forall|a: int|
                0 <= a < r ==> demanda_de_ruta(#[trigger] vista[a], clientes@, deposito)
                    <= capacidad,
        decreases total - r,
    {
        let ruta: &Vec<u32> = &rutas[r];
        let largo: usize = ruta.len();
        let ghost base = vistos@;
        let mut carga: u64 = 0;
        let mut k: usize = 0;
        assert(vista[r as int] == ruta@);
        assert(ruta@.take(0) =~= Seq::<u32>::empty());
        assert(base + clientes_de_ruta(ruta@.take(0), deposito) =~= base);
        while k < largo
            invariant
                vista == vista_tabla(rutas@),
                total == rutas@.len(),
                r < total,
                vista[r as int] == ruta@,
                largo == ruta@.len(),
                k <= largo,
                base == visitas(vista.take(r as int), deposito),
                vistos@ == base + clientes_de_ruta(ruta@.take(k as int), deposito),
                vistos@.no_duplicates(),
                forall|x: u32| vistos@.contains(x) ==> es_cliente(clientes@, deposito, x),
                carga == demanda_de_ruta(ruta@.take(k as int), clientes@, deposito),
                carga <= capacidad,
            decreases largo - k,
        {
            let v: u32 = ruta[k];
            proof {
                lema_un_nodo_mas(ruta@, k as int, clientes@, deposito);
                lema_abre_visitas(vista, r as int, k as int + 1, deposito);
                lema_abre_conserva(
                    base + clientes_de_ruta(ruta@.take(k as int + 1), deposito),
                    visitas(vista, deposito),
                );
                lema_demanda_crece(ruta@, k as int + 1, clientes@, deposito);
            }
            if v != deposito {
                let ghost parte = base + clientes_de_ruta(ruta@.take(k as int + 1), deposito);
                assert(parte =~= vistos@.push(v));
                match buscar_demanda(clientes, v) {
                    None => {
                        proof {
                            lema_nodo_visitado(vista, r as int, k as int, deposito);
                            assert(!es_cliente(clientes@, deposito, v));
                        }
                        return false;
                    },
                    Some(d) => {
                        if contiene(&vistos, v) {
                            proof {
                                let i = choose|i: int| 0 <= i < vistos@.len() && vistos@[i] == v;
                                let j = vistos@.len() as int;
                                let todas = visitas(vista, deposito);
                                assert(parte[i] == v && parte[j] == v);
                                assert(todas[i] == todas[j] && i != j);
                            }
                            return false;
                        }
                        proof {
                            assert(es_cliente(clientes@, deposito, v));
                            assert forall|x: u32| vistos@.push(v).contains(x) implies es_cliente(
                                clientes@,
                                deposito,
                                x,
                            ) by {
                                if x != v {
                                    let i = choose|i: int|
                                        0 <= i < vistos@.push(v).len() && vistos@.push(v)[i] == x;
                                    assert(i < vistos@.len());
                                    assert(vistos@[i] == x);
                                    assert(vistos@.contains(x));
                                }
                            }
                        }
                        vistos.push(v);
                        carga = carga + d as u64;
                        if carga > capacidad as u64 {
                            assert(demanda_de_ruta(vista[r as int], clientes@, deposito)
                                > capacidad);
                            return false;
                        }
                    },
                }
            }
            k += 1;
        }
        proof {
            assert(ruta@.take(largo as int) =~= ruta@);
            lema_una_ruta_mas(vista, r as int, deposito, Seq::empty());
        }
        r += 1;
    }
    assert(vista.take(total as int) =~= vista);
    let n: usize = clientes.len();
    let mut c: usize = 0;
    while c < n
        invariant
            n == clientes@.len(),
            c <= n,
            vistos@ == visitas(vista_tabla(rutas@), deposito),
            vistos@.no_duplicates(),
            forall|x: u32| vistos@.contains(x) ==> es_cliente(clientes@, deposito, x),
            forall|a: int| 0 <= a < rutas@.len() ==> demanda_de_ruta(
                #[trigger] vista_tabla(rutas@)[a],
                clientes@,
                deposito,
            ) <= capacidad,
            forall|a: int|
                0 <= a < c && (#[trigger] clientes@[a]).id != deposito ==> vistos@.contains(
                    clientes@[a].id,
                ),
        decreases n - c,
    {
        let id: u32 = clientes[c].id;
        if id != deposito && !contiene(&vistos, id) {
            assert(es_cliente(clientes@, deposito, id));
            return false;
        }
        c += 1;
    }
    true
}

/// The total cost of the routes, or the largest cost if it does not fit.
fn costo_de_hormiga(rutas: &Vec<Camino>, cd: &ConjuntoDistancias) -> (costo: u32)
    requires
        es_cuadrada(vista_tabla(cd@), cd@.len() as int),
        forall|r: int, k: int|
            0 <= r < rutas@.len() && 0 <= k < rutas@[r]@.len() ==> 1 <= #[trigger] rutas@[r]@[k]
                <= cd@.len(),
    ensures
        costo == tope(costo_de_rutas(vista_tabla(rutas@), vista_tabla(cd@))),
{
    let ghost vista = vista_tabla(rutas@);
    let ghost tabla = vista_tabla(cd@);
    let total: usize = rutas.len();
    let mut costo: u32 = 0;
    let ghost mut suma: int = 0;
    let mut r: usize = 0;
    while r < total
        invariant
            vista == vista_tabla(rutas@),
            tabla == vista_tabla(cd@),
            es_cuadrada(tabla, cd@.len() as int),
            forall|a: int, b: int|
                0 <= a < rutas@.len() && 0 <= b < rutas@[a]@.len() ==> 1 <= #[trigger] rutas@[a]@[b]
                    <= cd@.len(),
            total == rutas@.len(),
            r <= total,
            suma == costo_de_rutas(vista.take(r as int), tabla),
            suma >= 0,
            costo == tope(suma),
        decreases total - r,
    {
        let ruta: &Vec<u32> = &rutas[r];
        let largo: usize = ruta.len();
        let ghost base = suma;
        let mut k: usize = 1;
        proof {
            assert(vista[r as int] == ruta@);
            if largo >= 1 {
                assert(ruta@.take(1).len() < 2);
                assert(costo_de_ruta(ruta@.take(1), tabla) == 0);
            } else {
                assert(costo_de_ruta(ruta@, tabla) == 0);
            }
        }
        while k < largo
            invariant
                tabla == vista_tabla(cd@),
                es_cuadrada(tabla, cd@.len() as int),
                forall|b: int| 0 <= b < ruta@.len() ==> 1 <= #[trigger] ruta@[b] <= cd@.len(),
                largo == ruta@.len(),
                1 <= k,
                k <= largo || largo == 0,
                largo >= 1 ==> suma == base + costo_de_ruta(ruta@.take(k as int), tabla),
                largo == 0 ==> suma == base,
                suma >= 0,
                costo == tope(suma),
            decreases largo - k,
        {
            let o: usize = (ruta[k - 1] - 1) as usize;
            let d: usize = (ruta[k] - 1) as usize;
            proof {
                lema_un_paso_mas(ruta@, k as int, tabla);
                assert(tabla[o as int].len() == cd@.len());
                assert(tabla[o as int][d as int] == cd@[o as int]@[d as int]);
            }
            let paso: u64 = cd[o][d];
            if paso >= (u32::MAX - costo) as u64 {
                costo = u32::MAX;
            } else {
                costo = costo + paso as u32;
            }
            proof {
                suma = suma + paso;
            }
            k += 1;
        }
        proof {
            if largo >= 1 {
                assert(ruta@.take(largo as int) =~= ruta@);
            }
            lema_una_ruta_mas(vista, r as int, 0, tabla);
        }
        r += 1;
    }
    assert(vista.take(total as int) =~= vista);
    costo
}

/// Scores one ant's routes: the vehicles used, whether the solution is
/// feasible, and its total cost, or the sentinel if it is not feasible.
pub fn evaluar_hormiga(
    rutas: &Vec<Camino>,
    cd: &ConjuntoDistancias,
    capacidad_maxima: u32,
    n_vehiculos: u32,
    clientes: &Vec<Cliente>,
    deposito: NodoId,
) -> (e: EvaluacionSolucion)
    requires
        es_cuadrada(vista_tabla(cd@), cd@.len() as int),
        instancia_en_tabla(clientes@, deposito, cd@.len() as int),
    ensures
        e == evaluacion_de(
            vista_tabla(rutas@),
            vista_tabla(cd@),
            capacidad_maxima,
            n_vehiculos,
            clientes@,
            deposito,
        ),
{
    let vehiculos_usados: u32 = if rutas.len() > u32::MAX as usize {
        u32::MAX
    } else {
        rutas.len() as u32
    };
    if rutas.len() > n_vehiculos as usize || !revisar_rutas(
        rutas,
        capacidad_maxima,
        clientes,
        deposito,
    ) {
        return EvaluacionSolucion {
            costo_total: COSTO_CENTINELA,
            vehiculos_usados,
            es_factible: false,
        };
    }
    proof {
        let vista = vista_tabla(rutas@);
        assert forall|r: int, k: int|
            0 <= r < rutas@.len() && 0 <= k < rutas@[r]@.len() implies 1 <= #[trigger] rutas@[r]@[k]
            <= cd@.len() by {
            let v = rutas@[r]@[k];
            assert(vista[r][k] == v);
            if v != deposito {
                lema_nodo_visitado(vista, r, k, deposito);
                assert(es_cliente(clientes@, deposito, v));
            }
        }
    }
    let costo_total: u32 = costo_de_hormiga(rutas, cd);
    EvaluacionSolucion { costo_total, vehiculos_usados, es_factible: true }
}

/// Scores every ant of the colony, in order: one evaluation per ant, also
/// for the ants that are not feasible.
pub fn evaluacion_soluciones(
    h: &Hormigas,
    cd: &ConjuntoDistancias,
    capacidad_maxima: u32,
    n_vehiculos: u32,
    clientes: &Vec<Cliente>,
    deposito: NodoId,
) -> (evaluaciones: Evaluaciones)
    requires
        es_cuadrada(vista_tabla(cd@), cd@.len() as int),
        instancia_en_tabla(clientes@, deposito, cd@.len() as int),
    ensures
        evaluaciones@.len() == h@.len(),
        forall|k: int|
            0 <= k < h@.len() ==> #[trigger] evaluaciones@[k] == evaluacion_de(
                vista_hormigas(h@)[k],
                vista_tabla(cd@),
                capacidad_maxima,
                n_vehiculos,
                clientes@,
                deposito,
            ),
{
    let total: usize = h.len();
    let mut evaluaciones: Evaluaciones = Vec::new();
    let mut k: usize = 0;
    while k < total
        invariant
            es_cuadrada(vista_tabla(cd@), cd@.len() as int),
            instancia_en_tabla(clientes@, deposito, cd@.len() as int),
            total == h@.len(),
            k <= total,
            evaluaciones@.len() == k,
            forall|a: int|
                0 <= a < k ==> #[trigger] evaluaciones@[a] == evaluacion_de(
                    vista_hormigas(h@)[a],
                    vista_tabla(cd@),
                    capacidad_maxima,
                    n_vehiculos,
                    clientes@,
                    deposito,
                ),
        decreases total - k,
    {
        let e: EvaluacionSolucion = evaluar_hormiga(
            &h[k].rutas,
            cd,
            capacidad_maxima,
            n_vehiculos,
            clientes,
            deposito,
        );
        evaluaciones.push(e);
        k += 1;
    }
    evaluaciones
}

} // verus!

use vstd::prelude::*;
use crate::rutas_vehiculares::construccion::{
    construccion_rutas, es_construccion, inicializacion_hormigas,
};
use crate::rutas_vehiculares::datos::{
    vista_hormigas, COSTO_CENTINELA, Camino, Cliente, ConjuntoAristas, ConjuntoDistancias,
    ConjuntoFeromonas, ConjuntoPesos, DatosVRP, EvaluacionSolucion, Evaluaciones, FEROMONA_MINIMA,
    Hormigas, NodoId, Rho, Solucion,
};
use crate::rutas_vehiculares::distancias::{
    calcular_conjunto_distancias, create_conjunto_aristas, es_tabla_de_distancias,
};
use crate::rutas_vehiculares::evaluacion::{evaluacion_de, evaluacion_soluciones};
use crate::rutas_vehiculares::feromonas::{
    actualizacion_feromona, algoritmo_inicializacion, campo_depositado, campo_evaporado,
    campo_sobre_minimo, es_campo, es_feromona_inicial, evapozacion_feromona,
};
use crate::rutas_vehiculares::leyes::ley_construccion_factible;
use crate::rutas_vehiculares::rutas::{cobertura, dentro_de_capacidad, instancia_en_tabla};
use crate::rutas_vehiculares::validacion::{
    error_de, es_valida, ley_datos_validos, validar_datos, ErrorDatos,
};
use crate::tablas::{es_cuadrada, es_tabla_cuadrada, vista_tabla};

verus! {

impl View for Solucion {
    type V = (Seq<Seq<u32>>, u32, u32);

    /// A solution is its routes, its total cost and the vehicles it uses.
    open spec fn view(&self) -> (Seq<Seq<u32>>, u32, u32) {
        (vista_tabla(self.rutas@), self.costo_total, self.vehiculos_usados)
    }
}

/// The least cost known after the evaluations are looked at in order,
/// starting from `costo_inicial`: an evaluation lowers it only if it is
/// feasible and strictly cheaper.
pub open spec fn costo_del_mejor(evaluaciones: Seq<EvaluacionSolucion>, costo_inicial: u32) -> u32
    decreases evaluaciones.len(),
{
    if evaluaciones.len() == 0 {
        costo_inicial
    } else {
        let antes = costo_del_mejor(evaluaciones.drop_last(), costo_inicial);
        if evaluaciones.last().es_factible && evaluaciones.last().costo_total < antes {
            evaluaciones.last().costo_total
        } else {
            antes
        }
    }
}

/// The ant that holds the least cost after the evaluations are looked at in
/// order; none if no ant improved on `costo_inicial`.
pub open spec fn indice_del_mejor(
    evaluaciones: Seq<EvaluacionSolucion>,
    costo_inicial: u32,
) -> Option<int>
    decreases evaluaciones.len(),
{
    if evaluaciones.len() == 0 {
        None
    } else {
        let antes = costo_del_mejor(evaluaciones.drop_last(), costo_inicial);
        if evaluaciones.last().es_factible && evaluaciones.last().costo_total < antes {
            Some(evaluaciones.len() - 1)
        } else {
            indice_del_mejor(evaluaciones.drop_last(), costo_inicial)
        }
    }
}

/// The best-known solution after a colony is looked at: that of the ant
/// that improved on it last, or itself if none did.
pub open spec fn mejor_tras(
    mejor: (Seq<Seq<u32>>, u32, u32),
    hormigas: Seq<Seq<Seq<u32>>>,
    evaluaciones: Seq<EvaluacionSolucion>,
) -> (Seq<Seq<u32>>, u32, u32) {
    match indice_del_mejor(evaluaciones, mejor.1) {
        Some(i) => (hormigas[i], evaluaciones[i].costo_total, evaluaciones[i].vehiculos_usados),
        None => mejor,
    }
}

/// The best cost after a colony is the least of the cost before and the
/// costs of its feasible ants, and the ant that holds it is the first
/// feasible ant of that cost.
pub proof fn ley_mejor_es_minimo(evaluaciones: Seq<EvaluacionSolucion>, costo_inicial: u32)
    ensures
        costo_del_mejor(evaluaciones, costo_inicial) <= costo_inicial,
        forall|k: int|
            0 <= k < evaluaciones.len() && (#[trigger] evaluaciones[k]).es_factible
                ==> costo_del_mejor(evaluaciones, costo_inicial) <= evaluaciones[k].costo_total,
        match indice_del_mejor(evaluaciones, costo_inicial) {
            Some(i) => {
                &&& 0 <= i < evaluaciones.len()
                &&& evaluaciones[i].es_factible
                &&& evaluaciones[i].costo_total == costo_del_mejor(evaluaciones, costo_inicial)
                &&& evaluaciones[i].costo_total < costo_inicial
                &&& forall|k: int|
                    0 <= k < i && (#[trigger] evaluaciones[k]).es_factible
                        ==> evaluaciones[k].costo_total > evaluaciones[i].costo_total
            },
            None => costo_del_mejor(evaluaciones, costo_inicial) == costo_inicial,
        },
    decreases evaluaciones.len(),
{
    if evaluaciones.len() > 0 {
        let resto = evaluaciones.drop_last();
        ley_mejor_es_minimo(resto, costo_inicial);
        assert forall|k: int|
            0 <= k < evaluaciones.len() && (#[trigger] evaluaciones[k]).es_factible implies costo_del_mejor(
            evaluaciones,
            costo_inicial,
        ) <= evaluaciones[k].costo_total by {
            if k < resto.len() {
                assert(resto[k] == evaluaciones[k]);
            }
        }
        match indice_del_mejor(evaluaciones, costo_inicial) {
            Some(i) => {
                assert forall|k: int|
                    0 <= k < i && (#[trigger] evaluaciones[k]).es_factible implies evaluaciones[k].costo_total
                    > evaluaciones[i].costo_total by {
                    assert(resto[k] == evaluaciones[k]);
                }
            },
            None => {},
        }
    }
}

/// The field after one iteration: every trail between two distinct nodes
/// evaporated at rate `rho`, then the colony's deposit added.
pub open spec fn campo_tras(
    cf: Seq<Seq<u64>>,
    hormigas: Seq<Seq<Seq<u32>>>,
    evaluaciones: Seq<EvaluacionSolucion>,
    rho: u64,
) -> Seq<Seq<u64>> {
    campo_depositado(campo_evaporado(cf, rho), hormigas, evaluaciones)
}

/// The evaluations of a colony, one per ant and in order.
pub open spec fn evaluaciones_de(
    hormigas: Seq<Seq<Seq<u32>>>,
    cd: Seq<Seq<u64>>,
    capacidad: u32,
    n_vehiculos: u32,
    clientes: Seq<Cliente>,
    deposito: u32,
) -> Seq<EvaluacionSolucion> {
    Seq::new(
        hormigas.len(),
        |k: int| evaluacion_de(hormigas[k], cd, capacidad, n_vehiculos, clientes, deposito),
    )
}

/// A copy of the routes.
pub fn copiar_rutas(rutas: &Vec<Camino>) -> (copia: Vec<Camino>)
    ensures
        vista_tabla(copia@) == vista_tabla(rutas@),
{
    let total: usize = rutas.len();
    let mut copia: Vec<Camino> = Vec::new();
    let mut r: usize = 0;
    while r < total
        invariant
            total == rutas@.len(),
            r <= total,
            copia@.len() == r,
            forall|a: int| 0 <= a < r ==> (#[trigger] copia@[a])@ == rutas@[a]@,
        decreases total - r,
    {
        let origen: &Vec<u32> = &rutas[r];
        let largo: usize = origen.len();
        let mut ruta: Vec<u32> = Vec::new();
        let mut k: usize = 0;
        while k < largo
            invariant
                largo == origen@.len(),
                k <= largo,
                ruta@ == origen@.take(k as int),
            decreases largo - k,
        {
            ruta.push(origen[k]);
            assert(ruta@ =~= origen@.take(k as int + 1));
            k += 1;
        }
        assert(ruta@ =~= origen@);
        copia.push(ruta);
        r += 1;
    }
    assert(vista_tabla(copia@) =~= vista_tabla(rutas@));
    copia
}

impl Solucion {
    /// The register before any solution is known: the sentinel cost, no
    /// vehicle, and one empty route per ant.
    pub fn new(n_hormigas: usize) -> (s: Solucion)
        ensures
            s.costo_total == COSTO_CENTINELA,
            s.vehiculos_usados == 0,
            s.rutas@.len() == n_hormigas,
            forall|k: int| 0 <= k < n_hormigas ==> (#[trigger] s.rutas@[k])@.len() == 0,
    {
        let mut rutas: Vec<Camino> = Vec::new();
        let mut k: usize = 0;
        while k < n_hormigas
            invariant
                k <= n_hormigas,
                rutas@.len() == k,
                forall|a: int| 0 <= a < k ==> (#[trigger] rutas@[a])@.len() == 0,
            decreases n_hormigas - k,
        {
            rutas.push(Vec::new());
            k += 1;
        }
        Solucion { rutas, costo_total: COSTO_CENTINELA, vehiculos_usados: 0 }
    }

    /// Whether a feasible solution has been registered: the cost is no
    /// longer the sentinel.
    pub fn hay_solucion(&self) -> (b: bool)
        ensures
            b == (self.costo_total != COSTO_CENTINELA),
    {
        self.costo_total != COSTO_CENTINELA
    }
}

/// Looks at the colony's ants in order and replaces the best-known solution
/// by each feasible ant that is strictly cheaper than it.
pub fn actualizar_mejor(mejor: &mut Solucion, h: &Hormigas, evaluaciones: &Evaluaciones)
    requires
        h@.len() == evaluaciones@.len(),
    ensures
        final(mejor)@ == mejor_tras(old(mejor)@, vista_hormigas(h@), evaluaciones@),
{
    let total: usize = evaluaciones.len();
    let ghost inicial = old(mejor)@;
    let mut k: usize = 0;
    assert(evaluaciones@.take(0) =~= Seq::<EvaluacionSolucion>::empty());
    while k < total
        invariant
            total == evaluaciones@.len(),
            h@.len() == total,
            k <= total,
            inicial == old(mejor)@,
            mejor@ == mejor_tras(inicial, vista_hormigas(h@), evaluaciones@.take(k as int)),
            mejor.costo_total == costo_del_mejor(evaluaciones@.take(k as int), inicial.1),
        decreases total - k,
    {
        proof {
            assert(evaluaciones@.take(k as int + 1).drop_last() =~= evaluaciones@.take(k as int));
            ley_mejor_es_minimo(evaluaciones@.take(k as int), inicial.1);
        }
        if evaluaciones[k].costo_total < mejor.costo_total && evaluaciones[k].es_factible {
            mejor.rutas = copiar_rutas(&h[k].rutas);
            mejor.costo_total = evaluaciones[k].costo_total;
            mejor.vehiculos_usados = evaluaciones[k].vehiculos_usados;
        }
        k += 1;
    }
    assert(evaluaciones@.take(total as int) =~= evaluaciones@);
}

/// What one iteration does once the colony has built its routes: scores the
/// ants, keeps the best feasible solution seen so far, evaporates the field
/// and then adds the deposit of the feasible ants. Returns the evaluations.
pub fn registrar_colonia(
    h: &Hormigas,
    ca: &ConjuntoAristas,
    cd: &ConjuntoDistancias,
    cf: &mut ConjuntoFeromonas,
    mejor: &mut Solucion,
    capacidad_maxima: u32,
    n_vehiculos: u32,
    clientes: &Vec<Cliente>,
    deposito: NodoId,
    rho: Rho,
) -> (evaluaciones: Evaluaciones)
    requires
        es_cuadrada(vista_tabla(cd@), cd@.len() as int),
        es_cuadrada(vista_tabla(old(cf)@), old(cf)@.len() as int),
        instancia_en_tabla(clientes@, deposito, cd@.len() as int),
    ensures
        evaluaciones@ == evaluaciones_de(
            vista_hormigas(h@),
            vista_tabla(cd@),
            capacidad_maxima,
            n_vehiculos,
            clientes@,
            deposito,
        ),
        final(mejor)@ == mejor_tras(old(mejor)@, vista_hormigas(h@), evaluaciones@),
        vista_tabla(final(cf)@) == campo_tras(
            vista_tabla(old(cf)@),
            vista_hormigas(h@),
            evaluaciones@,
            rho,
        ),
        campo_sobre_minimo(vista_tabla(final(cf)@)),
        es_campo(vista_tabla(old(cf)@)) ==> es_campo(vista_tabla(final(cf)@)),
{
    let evaluaciones: Evaluaciones = evaluacion_soluciones(
        h,
        cd,
        capacidad_maxima,
        n_vehiculos,
        clientes,
        deposito,
    );
    assert(evaluaciones@ =~= evaluaciones_de(
        vista_hormigas(h@),
        vista_tabla(cd@),
        capacidad_maxima,
        n_vehiculos,
        clientes@,
        deposito,
    ));
    actualizar_mejor(mejor, h, &evaluaciones);
    evapozacion_feromona(ca, cf, rho);
    proof {
        let antes = vista_tabla(old(cf)@);
        let evaporado = vista_tabla(cf@);
        assert forall|a: int| 0 <= a < evaporado.len() implies (#[trigger] evaporado[a]).len()
            == evaporado.len() by {
            assert(antes[a].len() == antes.len());
        }
    }
    actualizacion_feromona(h, cf, &evaluaciones);
    evaluaciones
}

/// One iteration of the colony on the weights handed in: a fresh colony of
/// `n_hormigas` ants builds its routes by the roulette, and the iteration is
/// registered: best solution, evaporation, deposit. Returns the colony.
pub fn iteracion(
    n_hormigas: usize,
    ca: &ConjuntoAristas,
    pesos: &ConjuntoPesos,
    cd: &ConjuntoDistancias,
    cf: &mut ConjuntoFeromonas,
    mejor: &mut Solucion,
    capacidad_maxima: u32,
    n_vehiculos: u32,
    clientes: &Vec<Cliente>,
    deposito: NodoId,
    rho: Rho,
    rng: &mut rand::rngs::StdRng,
) -> (h: Hormigas)
    requires
        es_cuadrada(vista_tabla(pesos@), cd@.len() as int),
        es_cuadrada(vista_tabla(cd@), cd@.len() as int),
        es_cuadrada(vista_tabla(old(cf)@), old(cf)@.len() as int),
        instancia_en_tabla(clientes@, deposito, cd@.len() as int),
    ensures
        h@.len() == n_hormigas,
        forall|k: int|
            0 <= k < h@.len() ==> es_construccion(
                #[trigger] vista_hormigas(h@)[k],
                clientes@,
                deposito,
                capacidad_maxima,
            ),
        final(mejor)@ == mejor_tras(
            old(mejor)@,
            vista_hormigas(h@),
            evaluaciones_de(
                vista_hormigas(h@),
                vista_tabla(cd@),
                capacidad_maxima,
                n_vehiculos,
                clientes@,
                deposito,
            ),
        ),
        vista_tabla(final(cf)@) == campo_tras(
            vista_tabla(old(cf)@),
            vista_hormigas(h@),
            evaluaciones_de(
                vista_hormigas(h@),
                vista_tabla(cd@),
                capacidad_maxima,
                n_vehiculos,
                clientes@,
                deposito,
            ),
            rho,
        ),
        campo_sobre_minimo(vista_tabla(final(cf)@)),
        es_campo(vista_tabla(old(cf)@)) ==> es_campo(vista_tabla(final(cf)@)),
{
    let mut h: Hormigas = inicializacion_hormigas(n_hormigas);
    construccion_rutas(ca, pesos, cd, &mut h, capacidad_maxima, deposito, clientes, rng);
    let _evaluaciones: Evaluaciones = registrar_colonia(
        &h,
        ca,
        cd,
        cf,
        mejor,
        capacidad_maxima,
        n_vehiculos,
        clientes,
        deposito,
        rho,
    );
    h
}

/// The colony controller: the instance with its tables, the pheromone field
/// and the best solution known so far.
pub struct Colonia {
    pub datos: DatosVRP,
    pub ca: ConjuntoAristas,
    pub cd: ConjuntoDistancias,
    pub cf: ConjuntoFeromonas,
    pub mejor: Solucion,
}

impl Colonia {
    /// The state of a colony between iterations: the instance has no fault,
    /// the table holds the distances of its nodes, and the field has a row
    /// per node, is the same in both directions, zero from a node to itself
    /// and nowhere else below the floor.
    pub open spec fn bien_formada(&self) -> bool {
        &&& es_valida(self.datos)
        &&& es_tabla_de_distancias(vista_tabla(self.cd@), self.datos.nodos@)
        &&& self.cf@.len() == self.datos.nodos@.len()
        &&& es_campo(vista_tabla(self.cf@))
        &&& campo_sobre_minimo(vista_tabla(self.cf@))
    }

    /// A colony for the instance, before its first iteration: the instance
    /// is checked, the distances are computed, the field is drawn afresh for
    /// the complete graph, and no solution is known. Fails with the first
    /// fault of the instance.
    pub fn new(datos: DatosVRP, n_hormigas: usize, rng: &mut rand::rngs::StdRng) -> (r: Result<
        Colonia,
        ErrorDatos,
    >)
        ensures
            match error_de(datos) {
                Some(e) => r is Err && r->Err_0 == e,
                None => {
                    &&& r is Ok
                    &&& r->Ok_0.bien_formada()
                    &&& r->Ok_0.datos == datos
                    &&& r->Ok_0.mejor.costo_total == COSTO_CENTINELA
                    &&& r->Ok_0.mejor.vehiculos_usados == 0
                    &&& r->Ok_0.mejor.rutas@.len() == n_hormigas
                    &&& forall|i: int, j: int|
                        0 <= i < datos.nodos@.len() && 0 <= j < datos.nodos@.len() && i != j
                            ==> es_feromona_inicial(
                            #[trigger] vista_tabla(r->Ok_0.cf@)[i][j] as int,
                        )
                },
            },
    {
        match validar_datos(&datos) {
            Err(e) => {
                return Err(e);
            },
            Ok(()) => {},
        }
        let n: usize = datos.nodos.len();
        let ca: ConjuntoAristas = create_conjunto_aristas(n);
        let cd: ConjuntoDistancias = calcular_conjunto_distancias(&datos);
        let cf: ConjuntoFeromonas = algoritmo_inicializacion(&ca, rng);
        let mejor: Solucion = Solucion::new(n_hormigas);
        proof {
            let t = vista_tabla(cf@);
            assert forall|i: int, j: int| 0 <= i < n && 0 <= j < n && i != j implies es_feromona_inicial(
                #[trigger] t[i][j] as int,
            ) by {
                assert(vista_tabla(ca@)[i][j] == 1u32);
            }
            assert forall|i: int, j: int|
                0 <= i < t.len() && 0 <= j < t[i].len() && i != j implies #[trigger] t[i][j]
                >= FEROMONA_MINIMA by {
                assert(t[i].len() == n);
                assert(es_feromona_inicial(t[i][j] as int));
            }
        }
        Ok(Colonia { datos, ca, cd, cf, mejor })
    }

    /// Whether a table of weights fits the colony: a row and a column per
    /// node.
    pub fn admite_pesos(&self, pesos: &ConjuntoPesos) -> (b: bool)
        ensures
            b == es_cuadrada(vista_tabla(pesos@), self.cd@.len() as int),
    {
        es_tabla_cuadrada(pesos, self.cd.len())
    }

    /// One iteration on the weights handed in: `n_hormigas` fresh ants build
    /// their routes, the best feasible solution is kept, the field
    /// evaporates at rate `rho` and receives the deposit of the feasible
    /// ants. Returns the colony's ants. Every ant visits every customer
    /// exactly once within capacity, so it is feasible as soon as the fleet
    /// has a vehicle for each of its routes.
    pub fn iterar(
        &mut self,
        n_hormigas: usize,
        pesos: &ConjuntoPesos,
        rho: Rho,
        rng: &mut rand::rngs::StdRng,
    ) -> (h: Hormigas)
        requires
            old(self).bien_formada(),
            es_cuadrada(vista_tabla(pesos@), old(self).cd@.len() as int),
        ensures
            final(self).bien_formada(),
            final(self).datos == old(self).datos,
            final(self).ca == old(self).ca,
            final(self).cd == old(self).cd,
            h@.len() == n_hormigas,
            forall|k: int|
                0 <= k < h@.len() ==> {
                    &&& es_construccion(
                        #[trigger] vista_hormigas(h@)[k],
                        old(self).datos.clientes@,
                        old(self).datos.deposito_id,
                        old(self).datos.capacidad,
                    )
                    &&& cobertura(
                        vista_hormigas(h@)[k],
                        old(self).datos.clientes@,
                        old(self).datos.deposito_id,
                    )
                    &&& dentro_de_capacidad(
                        vista_hormigas(h@)[k],
                        old(self).datos.clientes@,
                        old(self).datos.deposito_id,
                        old(self).datos.capacidad,
                    )
                },
            final(self).mejor@ == mejor_tras(
                old(self).mejor@,
                vista_hormigas(h@),
                evaluaciones_de(
                    vista_hormigas(h@),
                    vista_tabla(old(self).cd@),
                    old(self).datos.capacidad,
                    old(self).datos.n_vehiculos,
                    old(self).datos.clientes@,
                    old(self).datos.deposito_id,
                ),
            ),
            vista_tabla(final(self).cf@) == campo_tras(
                vista_tabla(old(self).cf@),
                vista_hormigas(h@),
                evaluaciones_de(
                    vista_hormigas(h@),
                    vista_tabla(old(self).cd@),
                    old(self).datos.capacidad,
                    old(self).datos.n_vehiculos,
                    old(self).datos.clientes@,
                    old(self).datos.deposito_id,
                ),
                rho,
            ),
    {
        proof {
            ley_datos_validos(self.datos);
        }
        let h: Hormigas = iteracion(
            n_hormigas,
            &self.ca,
            pesos,
            &self.cd,
            &mut self.cf,
            &mut self.mejor,
            self.datos.capacidad,
            self.datos.n_vehiculos,
            &self.datos.clientes,
            self.datos.deposito_id,
            rho,
            rng,
        );
        proof {
            assert forall|k: int| 0 <= k < h@.len() implies {
                &&& cobertura(
                    #[trigger] vista_hormigas(h@)[k],
                    self.datos.clientes@,
                    self.datos.deposito_id,
                )
                &&& dentro_de_capacidad(
                    vista_hormigas(h@)[k],
                    self.datos.clientes@,
                    self.datos.deposito_id,
                    self.datos.capacidad,
                )
            } by {
                ley_construccion_factible(
                    vista_hormigas(h@)[k],
                    self.datos.clientes@,
                    self.datos.deposito_id,
                    self.datos.capacidad,
                    self.datos.n_vehiculos,
                );
            }
        }
        h
    }
}

} // verus!

use vstd::prelude::*;
use crate::rutas_vehiculares::carga::sin_repetir;
use crate::rutas_vehiculares::datos::{Cliente, DatosVRP};
use crate::rutas_vehiculares::rutas::{demanda_de, es_cliente, instancia_en_tabla};

verus! {

/// Why an instance cannot be run.
#[derive(Clone, Copy, Debug, PartialEq, Eq, Structural)]
pub enum ErrorDatos {
    /// There is no node, or the declared dimension is not the number of nodes.
    DimensionDistinta,
    /// Some node does not carry the identifier of its place: 1, 2, 3, ...
    NodoFueraDeLugar,
    /// The vehicle capacity is zero.
    CapacidadNula,
    /// The depot is not one of the nodes.
    DepositoDesconocido,
    /// A demand is listed for a node that does not exist.
    ClienteDesconocido,
    /// Two demands are listed for one node.
    DemandaRepetida,
    /// A node other than the depot has no demand listed.
    DemandaFaltante,
    /// A customer demands more than a vehicle holds.
    DemandaExcesiva,
}

/// There is a node, and the declared dimension is the number of nodes.
pub open spec fn dimension_coincide(d: DatosVRP) -> bool {
    d.dimension >= 1 && d.dimension == d.nodos@.len()
}

/// The nodes carry the identifiers 1, 2, 3, ... in order.
pub open spec fn nodos_en_orden(d: DatosVRP) -> bool {
    forall|i: int| 0 <= i < d.nodos@.len() ==> (#[trigger] d.nodos@[i]).id == i + 1
}

/// The depot is one of the nodes.
pub open spec fn deposito_conocido(d: DatosVRP) -> bool {
    1 <= d.deposito_id <= d.dimension
}

/// Every demand is listed for one of the nodes.
pub open spec fn clientes_conocidos(d: DatosVRP) -> bool {
    forall|k: int| 0 <= k < d.clientes@.len() ==> 1 <= (#[trigger] d.clientes@[k]).id <= d.dimension
}

/// No node has two demands listed.
pub open spec fn demandas_sin_repetir(d: DatosVRP) -> bool {
    sin_repetir(d.clientes@)
}

/// A demand is listed for the node `id`.
pub open spec fn tiene_demanda(clientes: Seq<Cliente>, id: int) -> bool {
    exists|k: int| 0 <= k < clientes.len() && (#[trigger] clientes[k]).id == id
}

/// Every node other than the depot has a demand listed.
pub open spec fn demandas_completas(d: DatosVRP) -> bool {
    forall|id: int|
        1 <= id <= d.dimension && id != d.deposito_id ==> #[trigger] tiene_demanda(
            d.clientes@,
            id,
        )
}

/// No customer demands more than a vehicle holds.
pub open spec fn demandas_atendibles(d: DatosVRP) -> bool {
    forall|k: int|
        0 <= k < d.clientes@.len() && (#[trigger] d.clientes@[k]).id != d.deposito_id
            ==> d.clientes@[k].demanda <= d.capacidad
}

/// The first fault of the instance, in the order of `ErrorDatos`; none if it
/// can be run.
pub open spec fn error_de(d: DatosVRP) -> Option<ErrorDatos> {
    if !dimension_coincide(d) {
        Some(ErrorDatos::DimensionDistinta)
    } else if !nodos_en_orden(d) {
        Some(ErrorDatos::NodoFueraDeLugar)
    } else if d.capacidad == 0 {
        Some(ErrorDatos::CapacidadNula)
    } else if !deposito_conocido(d) {
        Some(ErrorDatos::DepositoDesconocido)
    } else if !clientes_conocidos(d) {
        Some(ErrorDatos::ClienteDesconocido)
    } else if !demandas_sin_repetir(d) {
        Some(ErrorDatos::DemandaRepetida)
    } else if !demandas_completas(d) {
        Some(ErrorDatos::DemandaFaltante)
    } else if !demandas_atendibles(d) {
        Some(ErrorDatos::DemandaExcesiva)
    } else {
        None
    }
}

/// The instance can be run: it has no fault.
pub open spec fn es_valida(d: DatosVRP) -> bool {
    error_de(d) is None
}

/// Checks the instance before a run: the declared dimension against the
/// nodes read, the identifiers, the depot, and that every customer has one
/// demand that fits in a vehicle. Reports the first fault found.
#[verifier::loop_isolation(false)]
pub fn validar_datos(datos: &DatosVRP) -> (r: Result<(), ErrorDatos>)
    ensures
        r == match error_de(*datos) {
            Some(e) => Err::<(), ErrorDatos>(e),
            None => Ok::<(), ErrorDatos>(()),
        },
{
    let n: usize = datos.nodos.len();
    if datos.dimension == 0 || n != datos.dimension as usize {
        return Err(ErrorDatos::DimensionDistinta);
    }
    let mut i: usize = 0;
    while i < n
        invariant
            n == datos.nodos@.len(),
            n == datos.dimension,
            i <= n,
            forall|a: int| 0 <= a < i ==> (#[trigger] datos.nodos@[a]).id == a + 1,
        decreases n - i,
    {
        if datos.nodos[i].id as usize != i + 1 {
            return Err(ErrorDatos::NodoFueraDeLugar);
        }
        i += 1;
    }
    if datos.capacidad == 0 {
        return Err(ErrorDatos::CapacidadNula);
    }
    if datos.deposito_id == 0 || datos.deposito_id > datos.dimension {
        return Err(ErrorDatos::DepositoDesconocido);
    }
    let m: usize = datos.clientes.len();
    let mut k: usize = 0;
    while k < m
        invariant
            m == datos.clientes@.len(),
            k <= m,
            forall|a: int|
                0 <= a < k ==> 1 <= (#[trigger] datos.clientes@[a]).id <= datos.dimension,
        decreases m - k,
    {
        let id: u32 = datos.clientes[k].id;
        if id == 0 || id > datos.dimension {
            return Err(ErrorDatos::ClienteDesconocido);
        }
        k += 1;
    }
    let mut marcas: Vec<bool> = Vec::new();
    let mut j: usize = 0;
    while j < n
        invariant
            j <= n,
            marcas@.len() == j,
            forall|a: int| 0 <= a < j ==> !marcas@[a],
        decreases n - j,
    {
        marcas.push(false);
        j += 1;
    }
    k = 0;
    while k < m
        invariant
            n == datos.dimension,
            m == datos.clientes@.len(),
            k <= m,
            clientes_conocidos(*datos),
            marcas@.len() == n,
            forall|a: int, b: int|
                0 <= a < b < k ==> (#[trigger] datos.clientes@[a]).id != (
                #[trigger] datos.clientes@[b]).id,
            forall|p: int|
                0 <= p < n ==> (#[trigger] marcas@[p] <==> tiene_demanda(
                    datos.clientes@.take(k as int),
                    p + 1,
                )),
        decreases m - k,
    {
        let lugar: usize = (datos.clientes[k].id - 1) as usize;
        let ghost vistos = datos.clientes@.take(k as int);
        if marcas[lugar] {
            proof {
                let a = choose|a: int| 0 <= a < vistos.len() && (#[trigger] vistos[a]).id == lugar + 1;
                assert(datos.clientes@[a].id == datos.clientes@[k as int].id);
            }
            return Err(ErrorDatos::DemandaRepetida);
        }
        let ghost antes = marcas@;
        marcas.set(lugar, true);
        proof {
            let ahora = datos.clientes@.take(k as int + 1);
            assert(marcas@ == antes.update(lugar as int, true));
            assert forall|a: int, b: int| 0 <= a < b < k + 1 implies (
            #[trigger] datos.clientes@[a]).id != (#[trigger] datos.clientes@[b]).id by {
                if b == k {
                    if datos.clientes@[a].id == datos.clientes@[b].id {
                        assert(vistos[a].id == lugar + 1);
                        assert(tiene_demanda(vistos, lugar + 1));
                    }
                }
            }
            assert forall|p: int| 0 <= p < n implies (#[trigger] marcas@[p] <==> tiene_demanda(
                ahora,
                p + 1,
            )) by {
                if tiene_demanda(vistos, p + 1) {
                    let a = choose|a: int| 0 <= a < vistos.len() && (#[trigger] vistos[a]).id == p + 1;
                    assert(ahora[a].id == p + 1);
                }
                if p == lugar {
                    assert(ahora[k as int].id == p + 1);
                }
                if tiene_demanda(ahora, p + 1) {
                    let a = choose|a: int| 0 <= a < ahora.len() && (#[trigger] ahora[a]).id == p + 1;
                    if a < k {
                        assert(vistos[a].id == p + 1);
                    }
                }
            }
        }
        k += 1;
    }
    assert(datos.clientes@.take(m as int) =~= datos.clientes@);
    let mut p: usize = 0;
    while p < n
        invariant
            n == datos.dimension,
            p <= n,
            marcas@.len() == n,
            forall|q: int|
                0 <= q < n ==> (#[trigger] marcas@[q] <==> tiene_demanda(
                    datos.clientes@,
                    q + 1,
                )),
            forall|id: int|
                1 <= id <= p && id != datos.deposito_id ==> #[trigger] tiene_demanda(
                    datos.clientes@,
                    id,
                ),
        decreases n - p,
    {
        if p + 1 != datos.deposito_id as usize && !marcas[p] {
            assert(!tiene_demanda(datos.clientes@, p + 1));
            return Err(ErrorDatos::DemandaFaltante);
        }
        proof {
            assert(marcas@[p as int] <==> tiene_demanda(datos.clientes@, p + 1));
        }
        p += 1;
    }
    k = 0;
    while k < m
        invariant
            m == datos.clientes@.len(),
            k <= m,
            forall|a: int|
                0 <= a < k && (#[trigger] datos.clientes@[a]).id != datos.deposito_id
                    ==> datos.clientes@[a].demanda <= datos.capacidad,
        decreases m - k,
    {
        if datos.clientes[k].id != datos.deposito_id && datos.clientes[k].demanda
            > datos.capacidad {
            return Err(ErrorDatos::DemandaExcesiva);
        }
        k += 1;
    }
    Ok(())
}

/// The demand of a listed node is that of one of its entries.
proof fn lema_demanda_listada(clientes: Seq<Cliente>, id: u32)
    requires
        tiene_demanda(clientes, id as int),
    ensures
        exists|k: int|
            0 <= k < clientes.len() && (#[trigger] clientes[k]).id == id && demanda_de(
                clientes,
                id,
            ) == clientes[k].demanda,
    decreases clientes.len(),
{
    let a = choose|a: int| 0 <= a < clientes.len() && (#[trigger] clientes[a]).id == id;
    if clientes[0].id == id {
        assert(clientes[0].id == id && demanda_de(clientes, id) == clientes[0].demanda);
    } else {
        let resto = clientes.drop_first();
        assert(resto[a - 1].id == id);
        lema_demanda_listada(resto, id);
        let k = choose|k: int|
            0 <= k < resto.len() && (#[trigger] resto[k]).id == id && demanda_de(resto, id)
                == resto[k].demanda;
        assert(clientes[k + 1].id == id && demanda_de(clientes, id) == clientes[k + 1].demanda);
    }
}

/// In an instance without fault every listed node and the depot own a row of
/// the tables, no node is listed twice, every node but the depot is a
/// customer, and every customer fits in an empty vehicle.
pub proof fn ley_datos_validos(d: DatosVRP)
    requires
        es_valida(d),
    ensures
        instancia_en_tabla(d.clientes@, d.deposito_id, d.nodos@.len() as int),
        sin_repetir(d.clientes@),
        forall|id: u32|
            1 <= id <= d.dimension && id != d.deposito_id ==> #[trigger] es_cliente(
                d.clientes@,
                d.deposito_id,
                id,
            ),
        forall|id: u32|
            es_cliente(d.clientes@, d.deposito_id, id) ==> #[trigger] demanda_de(d.clientes@, id)
                <= d.capacidad,
{
    assert forall|id: u32| 1 <= id <= d.dimension && id != d.deposito_id implies #[trigger] es_cliente(
        d.clientes@,
        d.deposito_id,
        id,
    ) by {
        assert(tiene_demanda(d.clientes@, id as int));
    }
    assert forall|id: u32| es_cliente(d.clientes@, d.deposito_id, id) implies #[trigger] demanda_de(
        d.clientes@,
        id,
    ) <= d.capacidad by {
        assert(tiene_demanda(d.clientes@, id as int));
        lema_demanda_listada(d.clientes@, id);
    }
}

} // verus!

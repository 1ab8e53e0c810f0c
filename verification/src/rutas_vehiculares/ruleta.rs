use vstd::prelude::*;
use crate::azar::sortear_entre;
use crate::rutas_vehiculares::datos::{ConjuntoDistancias, ConjuntoPesos, NodoId};
use crate::tablas::{es_cuadrada, vista_tabla};

verus! {

/// The threshold that stands for 1.0; a threshold `u` stands for
/// `u / UMBRAL_MAXIMO`.
pub const UMBRAL_MAXIMO: u32 = 0xffff_ffff;

/// The sum of the weights.
pub open spec fn suma_pesos(pesos: Seq<u32>) -> int
    decreases pesos.len(),
{
    if pesos.len() == 0 {
        0
    } else {
        suma_pesos(pesos.drop_last()) + pesos.last()
    }
}

/// The share `acumulado / total` has reached the threshold.
pub open spec fn alcanza(acumulado: int, total: int, umbral: u32) -> bool {
    acumulado * UMBRAL_MAXIMO >= umbral * total
}

/// The lottery from a given state. Each draw picks one of the candidates
/// still available (the draw modulo their number) and adds its weight to
/// the share accumulated. The candidate is chosen if the share reaches the
/// threshold, or if it was the last candidate or the last draw; else it is
/// set aside and the next draw picks among the rest.
pub open spec fn ruleta_desde(
    pesos: Seq<u32>,
    disponibles: Seq<usize>,
    acumulado: int,
    total: int,
    umbral: u32,
    sorteos: Seq<usize>,
) -> Option<usize>
    decreases sorteos.len(),
{
    if disponibles.len() == 0 || sorteos.len() == 0 {
        None
    } else {
        let lugar = sorteos[0] as int % disponibles.len() as int;
        let j = disponibles[lugar];
        let nuevo = acumulado + pesos[j as int];
        if alcanza(nuevo, total, umbral) || disponibles.len() == 1 || sorteos.len() == 1 {
            Some(j)
        } else {
            ruleta_desde(
                pesos,
                disponibles.remove(lugar),
                nuevo,
                total,
                umbral,
                sorteos.drop_first(),
            )
        }
    }
}

/// The positions `0, 1, ..., n - 1`.
pub open spec fn todos_los_lugares(n: nat) -> Seq<usize> {
    Seq::new(n, |k: int| k as usize)
}

/// The position that the lottery chooses among candidates of the given
/// weights, for a threshold and a sequence of draws; none if there is no
/// candidate or no draw.
pub open spec fn ruleta(pesos: Seq<u32>, umbral: u32, sorteos: Seq<usize>) -> Option<usize> {
    ruleta_desde(pesos, todos_los_lugares(pesos.len()), 0, suma_pesos(pesos), umbral, sorteos)
}

/// The first position from `desde` on whose candidate lies at distance zero.
pub open spec fn primer_cero(fila: Seq<u64>, vertices: Seq<u32>, desde: int) -> Option<usize>
    decreases vertices.len() - desde,
{
    if desde < 0 || desde >= vertices.len() {
        None
    } else if fila[vertices[desde] - 1] == 0 {
        Some(desde as usize)
    } else {
        primer_cero(fila, vertices, desde + 1)
    }
}

/// The position chosen without a lottery: that of a single candidate, else
/// that of the first candidate at distance zero.
pub open spec fn lugar_directo(fila: Seq<u64>, vertices: Seq<u32>) -> Option<usize> {
    if vertices.len() == 1 {
        Some(0usize)
    } else {
        primer_cero(fila, vertices, 0)
    }
}

/// The weights of the candidates, read from the row of the current node.
pub open spec fn pesos_de(fila: Seq<u32>, vertices: Seq<u32>) -> Seq<u32> {
    Seq::new(vertices.len(), |k: int| fila[vertices[k] - 1])
}

/// The position of the candidate chosen from the node that owns the two
/// rows: the direct choice if there is one, else the lottery's.
pub open spec fn lugar_elegido(
    fila_pesos: Seq<u32>,
    fila_distancias: Seq<u64>,
    vertices: Seq<u32>,
    umbral: u32,
    sorteos: Seq<usize>,
) -> Option<usize> {
    match lugar_directo(fila_distancias, vertices) {
        Some(k) => Some(k),
        None => ruleta(pesos_de(fila_pesos, vertices), umbral, sorteos),
    }
}

/// The node at the chosen position.
pub open spec fn nodo_elegido(vertices: Seq<u32>, lugar: Option<usize>) -> Option<u32> {
    match lugar {
        Some(k) => Some(vertices[k as int]),
        None => None,
    }
}

/// The origin and every candidate own a row of the two tables, which have
/// `n` rows of `n` entries.
pub open spec fn seleccion_en_tabla(
    origen: u32,
    vertices: Seq<u32>,
    pesos: Seq<Seq<u32>>,
    cd: Seq<Seq<u64>>,
) -> bool {
    &&& es_cuadrada(pesos, cd.len() as int)
    &&& es_cuadrada(cd, cd.len() as int)
    &&& 1 <= origen <= cd.len()
    &&& forall|k: int| 0 <= k < vertices.len() ==> 1 <= #[trigger] vertices[k] <= cd.len()
}

proof fn lema_suma_acotada(pesos: Seq<u32>)
    ensures
        0 <= suma_pesos(pesos) <= pesos.len() * 0xffff_ffff,
    decreases pesos.len(),
{
    if pesos.len() > 0 {
        lema_suma_acotada(pesos.drop_last());
        assert((pesos.len() - 1) * 0xffff_ffff + 0xffff_ffff == pesos.len() * 0xffff_ffff)
            by (nonlinear_arith);
    }
}

/// The sum of the weights.
fn sumar_pesos(pesos: &Vec<u32>) -> (total: u128)
    ensures
        total == suma_pesos(pesos@),
        total <= pesos@.len() * 0xffff_ffff,
{
    let n: usize = pesos.len();
    let mut total: u128 = 0;
    let mut k: usize = 0;
    assert(pesos@.take(0) =~= Seq::<u32>::empty());
    while k < n
        invariant
            n == pesos@.len(),
            k <= n,
            total == suma_pesos(pesos@.take(k as int)),
            total <= k * 0xffff_ffff,
        decreases n - k,
    {
        proof {
            assert(pesos@.take(k as int + 1).drop_last() =~= pesos@.take(k as int));
            assert(k * 0xffff_ffff + 0xffff_ffff == (k + 1) * 0xffff_ffff) by (nonlinear_arith);
            assert((k + 1) * 0xffff_ffff <= 0xffff_ffff_ffff_ffff * 0xffff_ffff)
                by (nonlinear_arith)
                requires
                    k + 1 <= 0xffff_ffff_ffff_ffff,
            ;
        }
        total = total + pesos[k] as u128;
        k += 1;
    }
    proof {
        assert(pesos@.take(n as int) =~= pesos@);
    }
    total
}

/// The lottery among candidates of the given weights, run on a threshold
/// and a sequence of draws handed in: the position of the candidate chosen.
pub fn seleccion_por_sorteos(pesos: &Vec<u32>, umbral: u32, sorteos: &Vec<usize>) -> (r: Option<
    usize,
>)
    ensures
        r == ruleta(pesos@, umbral, sorteos@),
        r is Some <==> pesos@.len() > 0 && sorteos@.len() > 0,
        r is Some ==> r->0 < pesos@.len(),
{
    let n: usize = pesos.len();
    let m: usize = sorteos.len();
    if n == 0 || m == 0 {
        return None;
    }
    let total: u128 = sumar_pesos(pesos);
    let mut disponibles: Vec<usize> = Vec::new();
    let mut i: usize = 0;
    while i < n
        invariant
            i <= n,
            disponibles@ == todos_los_lugares(i as nat),
        decreases n - i,
    {
        disponibles.push(i);
        assert(disponibles@ =~= todos_los_lugares((i + 1) as nat));
        i += 1;
    }
    let mut acumulado: u128 = 0;
    let mut k: usize = 0;
    assert(sorteos@.skip(0) =~= sorteos@);
    loop
        invariant
            n == pesos@.len(),
            m == sorteos@.len(),
            k < m,
            k < n,
            disponibles@.len() == n - k,
            forall|a: int| 0 <= a < disponibles@.len() ==> disponibles@[a] < n,
            acumulado <= k * 0xffff_ffff,
            total <= n * 0xffff_ffff,
            ruleta(pesos@, umbral, sorteos@) == ruleta_desde(
                pesos@,
                disponibles@,
                acumulado as int,
                total as int,
                umbral,
                sorteos@.skip(k as int),
            ),
        decreases m - k,
    {
        let quedan: usize = disponibles.len();
        let lugar: usize = sorteos[k] % quedan;
        let j: usize = disponibles[lugar];
        proof {
            assert(sorteos@.skip(k as int)[0] == sorteos@[k as int]);
            assert(sorteos@.skip(k as int).drop_first() =~= sorteos@.skip(k as int + 1));
            assert(k * 0xffff_ffff + 0xffff_ffff == (k + 1) * 0xffff_ffff) by (nonlinear_arith);
            assert((k + 1) * 0xffff_ffff <= n * 0xffff_ffff) by (nonlinear_arith)
                requires
                    k + 1 <= n,
            ;
            assert(n * 0xffff_ffff * 0xffff_ffff <= 0xffff_ffff_ffff_ffff * 0xffff_ffff
                * 0xffff_ffff) by (nonlinear_arith)
                requires
                    n <= 0xffff_ffff_ffff_ffff,
            ;
        }
        let nuevo: u128 = acumulado + pesos[j] as u128;
        proof {
            assert(nuevo * 0xffff_ffff <= n * 0xffff_ffff * 0xffff_ffff) by (nonlinear_arith)
                requires
                    0 <= nuevo <= n * 0xffff_ffff,
            ;
            assert(umbral * total <= n * 0xffff_ffff * 0xffff_ffff) by (nonlinear_arith)
                requires
                    0 <= total <= n * 0xffff_ffff,
                    0 <= umbral <= 0xffff_ffff,
            ;
        }
        let lado_izquierdo: u128 = nuevo * (UMBRAL_MAXIMO as u128);
        let lado_derecho: u128 = (umbral as u128) * total;
        if lado_izquierdo >= lado_derecho || quedan == 1 || k + 1 == m {
            return Some(j);
        }
        disponibles.remove(lugar);
        acumulado = nuevo;
        k += 1;
    }
}

/// The position chosen without a lottery, if there is one.
fn buscar_lugar_directo(origen: NodoId, vertices: &Vec<NodoId>, cd: &ConjuntoDistancias) -> (r:
    Option<usize>)
    requires
        es_cuadrada(vista_tabla(cd@), cd@.len() as int),
        1 <= origen <= cd@.len(),
        forall|k: int| 0 <= k < vertices@.len() ==> 1 <= #[trigger] vertices@[k] <= cd@.len(),
    ensures
        r == lugar_directo(vista_tabla(cd@)[origen - 1], vertices@),
        r is Some ==> r->0 < vertices@.len(),
        vertices@.len() == 1 ==> r is Some,
{
    let n: usize = vertices.len();
    if n == 1 {
        return Some(0);
    }
    let fila: &Vec<u64> = &cd[(origen - 1) as usize];
    assert(vista_tabla(cd@)[origen - 1] == fila@);
    let mut k: usize = 0;
    while k < n
        invariant
            n == vertices@.len(),
            k <= n,
            n != 1,
            fila@.len() == cd@.len(),
            1 <= origen <= cd@.len(),
            vista_tabla(cd@)[origen - 1] == fila@,
            forall|a: int| 0 <= a < vertices@.len() ==> 1 <= #[trigger] vertices@[a] <= cd@.len(),
            primer_cero(fila@, vertices@, 0) == primer_cero(fila@, vertices@, k as int),
        decreases n - k,
    {
        if fila[(vertices[k] - 1) as usize] == 0 {
            return Some(k);
        }
        k += 1;
    }
    None
}

/// The weights of the candidates as seen from `origen`.
fn pesos_de_vertices(origen: NodoId, vertices: &Vec<NodoId>, pesos: &ConjuntoPesos) -> (r: Vec<
    u32,
>)
    requires
        es_cuadrada(vista_tabla(pesos@), pesos@.len() as int),
        1 <= origen <= pesos@.len(),
        forall|k: int| 0 <= k < vertices@.len() ==> 1 <= #[trigger] vertices@[k] <= pesos@.len(),
    ensures
        r@ == pesos_de(vista_tabla(pesos@)[origen - 1], vertices@),
{
    let n: usize = vertices.len();
    let fila: &Vec<u32> = &pesos[(origen - 1) as usize];
    assert(vista_tabla(pesos@)[origen - 1] == fila@);
    let mut r: Vec<u32> = Vec::new();
    let mut k: usize = 0;
    while k < n
        invariant
            n == vertices@.len(),
            k <= n,
            fila@.len() == pesos@.len(),
            forall|a: int|
                0 <= a < vertices@.len() ==> 1 <= #[trigger] vertices@[a] <= pesos@.len(),
            r@.len() == k,
            forall|a: int| 0 <= a < k ==> r@[a] == fila@[vertices@[a] - 1],
        decreases n - k,
    {
        r.push(fila[(vertices[k] - 1) as usize]);
        k += 1;
    }
    assert(r@ =~= pesos_de(fila@, vertices@));
    r
}

/// Chooses the next node among the candidates on a threshold and a sequence
/// of draws handed in. A single candidate is chosen as it is; else the first
/// candidate at distance zero from `origen`, if there is one; else the one
/// that the lottery picks by the weights of the edges from `origen`.
pub fn seleccion_con_sorteos(
    origen: NodoId,
    vertices_factibles: &Vec<NodoId>,
    pesos: &ConjuntoPesos,
    cd: &ConjuntoDistancias,
    umbral: u32,
    sorteos: &Vec<usize>,
) -> (r: Option<NodoId>)
    requires
        seleccion_en_tabla(origen, vertices_factibles@, vista_tabla(pesos@), vista_tabla(cd@)),
    ensures
        r == nodo_elegido(
            vertices_factibles@,
            lugar_elegido(
                vista_tabla(pesos@)[origen - 1],
                vista_tabla(cd@)[origen - 1],
                vertices_factibles@,
                umbral,
                sorteos@,
            ),
        ),
{
    match buscar_lugar_directo(origen, vertices_factibles, cd) {
        Some(k) => Some(vertices_factibles[k]),
        None => {
            let candidatos: Vec<u32> = pesos_de_vertices(origen, vertices_factibles, pesos);
            match seleccion_por_sorteos(&candidatos, umbral, sorteos) {
                Some(j) => Some(vertices_factibles[j]),
                None => None,
            }
        },
    }
}

/// Chooses the next node among the candidates. A single candidate is chosen
/// as it is; else the first candidate at distance zero from `origen`, if
/// there is one; else a threshold is drawn, and candidates are drawn one by
/// one without replacement until their accumulated share of the weights
/// reaches it. Some candidate is chosen whenever there is one.
pub fn seleccion_ruleta(
    origen: NodoId,
    vertices_factibles: &Vec<NodoId>,
    pesos: &ConjuntoPesos,
    cd: &ConjuntoDistancias,
    rng: &mut rand::rngs::StdRng,
) -> (r: Option<NodoId>)
    requires
        seleccion_en_tabla(origen, vertices_factibles@, vista_tabla(pesos@), vista_tabla(cd@)),
    ensures
        r is None <==> vertices_factibles@.len() == 0,
        r is Some ==> vertices_factibles@.contains(r->0),
        lugar_directo(vista_tabla(cd@)[origen - 1], vertices_factibles@) is Some ==> r
            == nodo_elegido(
            vertices_factibles@,
            lugar_directo(vista_tabla(cd@)[origen - 1], vertices_factibles@),
        ),
{
    let n: usize = vertices_factibles.len();
    if n == 0 {
        return None;
    }
    match buscar_lugar_directo(origen, vertices_factibles, cd) {
        Some(k) => Some(vertices_factibles[k]),
        None => {
            let candidatos: Vec<u32> = pesos_de_vertices(origen, vertices_factibles, pesos);
            let umbral: u32 = sortear_entre(rng, 0, UMBRAL_MAXIMO as u64) as u32;
            let mut sorteos: Vec<usize> = Vec::new();
            let mut k: usize = 0;
            while k < n
                invariant
                    k <= n,
                    sorteos@.len() == k,
                decreases n - k,
            {
                let s: u64 = sortear_entre(rng, 0, (n - k - 1) as u64);
                sorteos.push(s as usize);
                k += 1;
            }
            match seleccion_por_sorteos(&candidatos, umbral, &sorteos) {
                Some(j) => Some(vertices_factibles[j]),
                None => None,
            }
        },
    }
}

} // verus!

use vstd::prelude::*;
use crate::rutas_vehiculares::datos::{ConjuntoAristas, ConjuntoDistancias, DatosVRP, Nodo};
use crate::tablas::{es_cuadrada, vista_tabla};

verus! {

/// `r` is the square root of `x` rounded down.
pub open spec fn es_raiz_entera(r: int, x: int) -> bool {
    0 <= r && r * r <= x < (r + 1) * (r + 1)
}

/// Square of the Euclidean distance between two nodes.
pub open spec fn distancia_cuadrada(a: Nodo, b: Nodo) -> int {
    (a.x - b.x) * (a.x - b.x) + (a.y - b.y) * (a.y - b.y)
}

/// `t` holds, for every pair of nodes, their Euclidean distance rounded down.
pub open spec fn es_tabla_de_distancias(t: Seq<Seq<u64>>, nodos: Seq<Nodo>) -> bool {
    &&& es_cuadrada(t, nodos.len() as int)
    &&& forall|i: int, j: int|
        0 <= i < nodos.len() && 0 <= j < nodos.len() ==> es_raiz_entera(
            #[trigger] t[i][j] as int,
            distancia_cuadrada(nodos[i], nodos[j]),
        )
}

/// A number has one rounded-down square root.
pub proof fn ley_raiz_entera_unica(r: int, s: int, x: int)
    requires
        es_raiz_entera(r, x),
        es_raiz_entera(s, x),
    ensures
        r == s,
{
    if r < s {
        assert((r + 1) * (r + 1) <= s * s) by (nonlinear_arith)
            requires
                0 <= r,
                r + 1 <= s,
        ;
    }
    if s < r {
        assert((s + 1) * (s + 1) <= r * r) by (nonlinear_arith)
            requires
                0 <= s,
                s + 1 <= r,
        ;
    }
}

/// The square root of `x` rounded down.
pub fn raiz_entera(x: u128) -> (r: u64)
    ensures
        es_raiz_entera(r as int, x as int),
{
    let mut bajo: u128 = 0;
    let mut alto: u128 = 0x1_0000_0000_0000_0000;
    assert(x < 0x1_0000_0000_0000_0000 * 0x1_0000_0000_0000_0000) by (nonlinear_arith)
        requires
            x <= u128::MAX,
    ;
    while alto - bajo > 1
        invariant
            bajo < alto <= 0x1_0000_0000_0000_0000,
            bajo * bajo <= x < alto * alto,
        decreases alto - bajo,
    {
        let medio: u128 = bajo + (alto - bajo) / 2;
        assert(medio * medio < 0x1_0000_0000_0000_0000 * 0x1_0000_0000_0000_0000)
            by (nonlinear_arith)
            requires
                0 <= medio < 0x1_0000_0000_0000_0000,
        ;
        if medio * medio <= x {
            bajo = medio;
        } else {
            alto = medio;
        }
    }
    bajo as u64
}

/// Difference of two coordinates, whichever is the larger.
fn separacion(a: u32, b: u32) -> (d: u128)
    ensures
        d == if a >= b { a - b } else { b - a },
{
    if a >= b {
        (a - b) as u128
    } else {
        (b - a) as u128
    }
}

/// Euclidean distance between two nodes, rounded down.
pub fn distancia_entre(a: &Nodo, b: &Nodo) -> (d: u64)
    ensures
        es_raiz_entera(d as int, distancia_cuadrada(*a, *b)),
{
    let dx: u128 = separacion(a.x, b.x);
    let dy: u128 = separacion(a.y, b.y);
    assert(dx * dx == (a.x - b.x) * (a.x - b.x)) by (nonlinear_arith)
        requires
            dx == a.x - b.x || dx == b.x - a.x,
    ;
    assert(dy * dy == (a.y - b.y) * (a.y - b.y)) by (nonlinear_arith)
        requires
            dy == a.y - b.y || dy == b.y - a.y,
    ;
    assert(dx * dx <= 0xffff_ffff * 0xffff_ffff) by (nonlinear_arith)
        requires
            0 <= dx <= 0xffff_ffff,
    ;
    assert(dy * dy <= 0xffff_ffff * 0xffff_ffff) by (nonlinear_arith)
        requires
            0 <= dy <= 0xffff_ffff,
    ;
    raiz_entera(dx * dx + dy * dy)
}

/// The complete table of pairwise distances of the instance's nodes, each
/// rounded down to an integer; row and column `i` belong to the `i`-th node.
pub fn calcular_conjunto_distancias(datos: &DatosVRP) -> (cd: ConjuntoDistancias)
    ensures
        es_tabla_de_distancias(vista_tabla(cd@), datos.nodos@),
{
    let n: usize = datos.nodos.len();
    let mut cd: ConjuntoDistancias = Vec::new();
    let mut i: usize = 0;
    while i < n
        invariant
            n == datos.nodos@.len(),
            i <= n,
            cd@.len() == i,
            forall|a: int| 0 <= a < i ==> (#[trigger] cd@[a])@.len() == n,
            forall|a: int, b: int|
                0 <= a < i && 0 <= b < n ==> es_raiz_entera(
                    #[trigger] cd@[a]@[b] as int,
                    distancia_cuadrada(datos.nodos@[a], datos.nodos@[b]),
                ),
        decreases n - i,
    {
        let mut fila: Vec<u64> = Vec::new();
        let mut j: usize = 0;
        while j < n
            invariant
                n == datos.nodos@.len(),
                i < n,
                j <= n,
                fila@.len() == j,
                forall|b: int|
                    0 <= b < j ==> es_raiz_entera(
                        #[trigger] fila@[b] as int,
                        distancia_cuadrada(datos.nodos@[i as int], datos.nodos@[b]),
                    ),
            decreases n - j,
        {
            let d: u64 = distancia_entre(&datos.nodos[i], &datos.nodos[j]);
            fila.push(d);
            j += 1;
        }
        cd.push(fila);
        i += 1;
    }
    proof {
        let t = vista_tabla(cd@);
        assert forall|a: int, b: int| 0 <= a < n && 0 <= b < n implies es_raiz_entera(
            #[trigger] t[a][b] as int,
            distancia_cuadrada(datos.nodos@[a], datos.nodos@[b]),
        ) by {
            assert(t[a][b] == cd@[a]@[b]);
        }
    }
    cd
}

/// The adjacency table of the complete graph on `dimension` nodes: 1 between
/// two distinct nodes, 0 from a node to itself.
pub fn create_conjunto_aristas(dimension: usize) -> (ca: ConjuntoAristas)
    ensures
        es_cuadrada(vista_tabla(ca@), dimension as int),
        forall|i: int, j: int|
            0 <= i < dimension && 0 <= j < dimension ==> #[trigger] vista_tabla(ca@)[i][j] == (if i
                == j {
                0u32
            } else {
                1u32
            }),
{
    let mut ca: ConjuntoAristas = Vec::new();
    let mut i: usize = 0;
    while i < dimension
        invariant
            i <= dimension,
            ca@.len() == i,
            forall|a: int| 0 <= a < i ==> (#[trigger] ca@[a])@.len() == dimension,
            forall|a: int, b: int|
                0 <= a < i && 0 <= b < dimension ==> #[trigger] ca@[a]@[b] == (if a == b {
                    0u32
                } else {
                    1u32
                }),
        decreases dimension - i,
    {
        let mut fila: Vec<u32> = Vec::new();
        let mut j: usize = 0;
        while j < dimension
            invariant
                i < dimension,
                j <= dimension,
                fila@.len() == j,
                forall|b: int|
                    0 <= b < j ==> #[trigger] fila@[b] == (if i as int == b {
                        0u32
                    } else {
                        1u32
                    }),
            decreases dimension - j,
        {
            let valor: u32 = if i == j { 0 } else { 1 };
            fila.push(valor);
            j += 1;
        }
        ca.push(fila);
        i += 1;
    }
    proof {
        let t = vista_tabla(ca@);
        assert forall|a: int, b: int| 0 <= a < dimension && 0 <= b < dimension implies #[trigger] t[a][b]
            == (if a == b {
            0u32
        } else {
            1u32
        }) by {
            assert(t[a][b] == ca@[a]@[b]);
        }
    }
    ca
}

} // verus!

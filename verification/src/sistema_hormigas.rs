//! The ant system on a matrix of distances: the file of the matrix, the
//! neighbours of each node, the ants and the length of their tours.

use vstd::prelude::*;
use crate::azar::sortear_entre;
use crate::tablas::{es_cuadrada, tope, vista_tabla};
use crate::texto::{
    campos, clave, copiar_tramo, empieza, empieza_con, iguales, leer_numero, lineas, numero,
    numeros, partir_campos, partir_lineas, recortada, recortar, son_numeros,
};

verus! {

/// A node: its row in the matrix of distances, counted from 0.
pub type Nodo = u32;

/// A row of the matrix of distances.
pub type Distancia = Vec<u32>;

/// The neighbours of each node.
pub type Base = Vec<Vec<Nodo>>;

/// The matrix of distances.
pub type Distancias = Vec<Distancia>;

/// A path: the nodes visited, in order.
pub type Camino = Vec<Nodo>;

/// A colony of ants.
pub type Hormigas = Vec<Hormiga>;

/// The length of the tour of each ant, in the order of the ants.
pub type EvaluacionCaminos = Distancia;

/// A matrix of distances as its file gives it.
pub struct MatrizFromFile {
    pub matriz: Distancias,
    pub dimension: u32,
}

impl MatrizFromFile {
    /// The matrix with the dimension that its file declares.
    pub fn new(matriz: Distancias, dimension: u32) -> (m: MatrizFromFile)
        ensures
            m.matriz == matriz,
            m.dimension == dimension,
    {
        MatrizFromFile { matriz, dimension }
    }
}

/// An ant: the nodes it has visited, in order.
#[derive(Debug)]
pub struct Hormiga {
    pub camino: Camino,
}

impl Hormiga {
    /// An ant that stands on its first node.
    pub fn new(inicio: Nodo) -> (h: Hormiga)
        ensures
            h.camino@ == seq![inicio],
    {
        let mut camino: Camino = Vec::new();
        camino.push(inicio);
        Hormiga { camino }
    }
}

/// A node drawn among the `dimension` nodes.
pub fn get_inicio(dimension: &u32, rng: &mut rand::rngs::StdRng) -> (inicio: u32)
    requires
        *dimension > 0,
    ensures
        inicio < *dimension,
{
    sortear_entre(rng, 0, (*dimension - 1) as u64) as u32
}

/// As many ants as asked for, each standing on the node `inicio`.
pub fn inicializacion_hormigas(cantidad_hormigas: usize, inicio: u32) -> (hormigas: Hormigas)
    ensures
        hormigas@.len() == cantidad_hormigas,
        forall|k: int| 0 <= k < cantidad_hormigas ==> (#[trigger] hormigas@[k]).camino@ == seq![inicio],
{
    let mut hormigas: Hormigas = Vec::new();
    let mut k: usize = 0;
    while k < cantidad_hormigas
        invariant
            k <= cantidad_hormigas,
            hormigas@.len() == k,
            forall|a: int| 0 <= a < k ==> (#[trigger] hormigas@[a]).camino@ == seq![inicio],
        decreases cantidad_hormigas - k,
    {
        hormigas.push(Hormiga::new(inicio));
        k += 1;
    }
    hormigas
}

/// The sum of the distances along the consecutive pairs of a path.
pub open spec fn largo_de_camino(camino: Seq<u32>, distancias: Seq<Seq<u32>>) -> int
    decreases camino.len(),
{
    if camino.len() < 2 {
        0
    } else {
        largo_de_camino(camino.drop_last(), distancias) + distancias[camino[camino.len()
            - 2] as int][camino[camino.len() - 1] as int]
    }
}

/// The length of the tour: the path, and the way back from its last node to
/// its first.
pub open spec fn largo_de_ciclo(camino: Seq<u32>, distancias: Seq<Seq<u32>>) -> int {
    largo_de_camino(camino, distancias) + distancias[camino[camino.len() - 1] as int][camino[0] as int]
}

/// The path is not empty and each of its nodes owns a row of the matrix.
pub open spec fn camino_en_matriz(camino: Seq<u32>, n: int) -> bool {
    &&& camino.len() >= 1
    &&& forall|k: int| 0 <= k < camino.len() ==> #[trigger] camino[k] < n
}

/// The length of the tour of one path, or the largest length if it does
/// not fit.
pub fn evaluar_camino(camino: &Camino, distancias: &Distancias) -> (largo: u32)
    requires
        es_cuadrada(vista_tabla(distancias@), distancias@.len() as int),
        camino_en_matriz(camino@, distancias@.len() as int),
    ensures
        largo == tope(largo_de_ciclo(camino@, vista_tabla(distancias@))),
{
    let ghost tabla = vista_tabla(distancias@);
    let n: usize = camino.len();
    let mut total: u128 = 0;
    let mut k: usize = 1;
    assert(camino@.take(1).len() < 2);
    while k < n
        invariant
            tabla == vista_tabla(distancias@),
            es_cuadrada(tabla, distancias@.len() as int),
            camino_en_matriz(camino@, distancias@.len() as int),
            n == camino@.len(),
            1 <= k <= n,
            total == largo_de_camino(camino@.take(k as int), tabla),
            total <= (k - 1) * 0xffff_ffff,
        decreases n - k,
    {
        let a: usize = camino[k - 1] as usize;
        let b: usize = camino[k] as usize;
        proof {
            assert(camino@.take(k as int + 1).drop_last() =~= camino@.take(k as int));
            assert(tabla[a as int].len() == distancias@.len());
            assert(tabla[a as int][b as int] == distancias@[a as int]@[b as int]);
            assert((k - 1) * 0xffff_ffff + 0xffff_ffff == k * 0xffff_ffff) by (nonlinear_arith);
            assert(k * 0xffff_ffff <= 0xffff_ffff_ffff_ffff * 0xffff_ffff) by (nonlinear_arith)
                requires
                    k <= 0xffff_ffff_ffff_ffff,
            ;
        }
        total = total + distancias[a][b] as u128;
        k += 1;
    }
    let ultimo: usize = camino[n - 1] as usize;
    let primero: usize = camino[0] as usize;
    proof {
        assert(camino@.take(n as int) =~= camino@);
        assert(tabla[ultimo as int].len() == distancias@.len());
        assert(tabla[ultimo as int][primero as int] == distancias@[ultimo as int]@[primero as int]);
        assert((n - 1) * 0xffff_ffff + 0xffff_ffff == n * 0xffff_ffff) by (nonlinear_arith);
        assert(n * 0xffff_ffff <= 0xffff_ffff_ffff_ffff * 0xffff_ffff) by (nonlinear_arith)
            requires
                n <= 0xffff_ffff_ffff_ffff,
        ;
    }
    let ciclo: u128 = total + distancias[ultimo][primero] as u128;
    if ciclo >= u32::MAX as u128 {
        u32::MAX
    } else {
        ciclo as u32
    }
}

/// The length of the tour of every ant, in order.
pub fn evaluacion_caminos(hormigas: &Hormigas, n_hormigas: usize, distancias: &Distancias) -> (evaluacion:
    EvaluacionCaminos)
    requires
        es_cuadrada(vista_tabla(distancias@), distancias@.len() as int),
        forall|k: int|
            0 <= k < hormigas@.len() ==> camino_en_matriz(
                (#[trigger] hormigas@[k]).camino@,
                distancias@.len() as int,
            ),
    ensures
        evaluacion@.len() == hormigas@.len(),
        forall|k: int|
            0 <= k < hormigas@.len() ==> #[trigger] evaluacion@[k] == tope(
                largo_de_ciclo(hormigas@[k].camino@, vista_tabla(distancias@)),
            ),
{
    let total: usize = hormigas.len();
    let mut evaluacion: EvaluacionCaminos = Vec::new();
    let mut k: usize = 0;
    while k < total
        invariant
            es_cuadrada(vista_tabla(distancias@), distancias@.len() as int),
            forall|a: int|
                0 <= a < hormigas@.len() ==> camino_en_matriz(
                    (#[trigger] hormigas@[a]).camino@,
                    distancias@.len() as int,
                ),
            total == hormigas@.len(),
            k <= total,
            evaluacion@.len() == k,
            forall|a: int|
                0 <= a < k ==> #[trigger] evaluacion@[a] == tope(
                    largo_de_ciclo(hormigas@[a].camino@, vista_tabla(distancias@)),
                ),
        decreases total - k,
    {
        let largo: u32 = evaluar_camino(&hormigas[k].camino, distancias);
        evaluacion.push(largo);
        k += 1;
    }
    evaluacion
}

/// The neighbours of node `i` among `n` nodes: every other node, in order.
pub open spec fn vecinos_de(i: int, n: int) -> Seq<u32> {
    Seq::new(
        (n - 1) as nat,
        |k: int|
            if k < i {
                k as u32
            } else {
                (k + 1) as u32
            },
    )
}

/// The neighbours of each node of the complete graph that the matrix
/// describes: for node `i`, every other node in order.
pub fn get_conjunto_aristas_from_distancia(file: &MatrizFromFile) -> (conjunto_aristas: Base)
    ensures
        conjunto_aristas@.len() == file.dimension,
        forall|i: int|
            0 <= i < file.dimension ==> (#[trigger] conjunto_aristas@[i])@ == vecinos_de(
                i,
                file.dimension as int,
            ),
{
    let n: u32 = file.dimension;
    let mut conjunto_aristas: Base = Vec::new();
    let mut i: u32 = 0;
    while i < n
        invariant
            i <= n,
            conjunto_aristas@.len() == i,
            forall|a: int| 0 <= a < i ==> (#[trigger] conjunto_aristas@[a])@ == vecinos_de(a, n as int),
        decreases n - i,
    {
        let mut fila: Vec<Nodo> = Vec::new();
        let mut j: u32 = 0;
        while j < n
            invariant
                i < n,
                j <= n,
                fila@.len() == (if j <= i {
                    j as int
                } else {
                    j - 1
                }),
                forall|k: int|
                    0 <= k < fila@.len() ==> #[trigger] fila@[k] == (if k < i {
                        k as u32
                    } else {
                        (k + 1) as u32
                    }),
            decreases n - j,
        {
            if i != j {
                fila.push(j);
            }
            j += 1;
        }
        assert(fila@ =~= vecinos_de(i as int, n as int));
        conjunto_aristas.push(fila);
        i += 1;
    }
    conjunto_aristas
}

/// Why the text of a matrix file cannot be read.
#[derive(Clone, Copy, Debug, PartialEq, Eq, Structural)]
pub enum ErrorMatriz {
    /// What follows `DIMENSION:` is not a number.
    DimensionIlegible,
    /// A line of the matrix holds something that is not a number.
    ValorIlegible,
    /// No dimension is given, or it is zero.
    SinDimension,
    /// The matrix does not hold dimension times dimension values:
    /// `esperados` were due and `hallados` were read.
    CantidadDistinta { esperados: u64, hallados: u64 },
}

/// What has been read of a matrix file so far.
pub struct MatrizLeida {
    pub dimension: u32,
    pub en_matriz: bool,
    pub terminada: bool,
    pub valores: Seq<u32>,
}

/// One line of a matrix file. A line that starts with `DIMENSION:` gives
/// the dimension; the line `EDGE_WEIGHT_SECTION` opens the matrix; after
/// it the line `EOF` ends the reading, and every other line adds its
/// numbers to the values. Lines before the matrix are passed over.
pub open spec fn paso_de_matriz(e: MatrizLeida, linea: Seq<u8>) -> Result<MatrizLeida, ErrorMatriz> {
    if e.terminada {
        Ok(e)
    } else if empieza_con(linea, clave("DIMENSION:")) {
        match numero(recortada(linea.skip(clave("DIMENSION:").len() as int))) {
            Some(d) => Ok(MatrizLeida { dimension: d, ..e }),
            None => Err(ErrorMatriz::DimensionIlegible),
        }
    } else if recortada(linea) == clave("EDGE_WEIGHT_SECTION") {
        Ok(MatrizLeida { en_matriz: true, ..e })
    } else if e.en_matriz {
        if recortada(linea) == clave("EOF") {
            Ok(MatrizLeida { terminada: true, ..e })
        } else if son_numeros(campos(linea)) {
            Ok(MatrizLeida { valores: e.valores + numeros(campos(linea)), ..e })
        } else {
            Err(ErrorMatriz::ValorIlegible)
        }
    } else {
        Ok(e)
    }
}

/// The lines read in order, up to the first that cannot be read.
pub open spec fn matriz_leida(e: MatrizLeida, ls: Seq<Seq<u8>>) -> Result<MatrizLeida, ErrorMatriz>
    decreases ls.len(),
{
    if ls.len() == 0 {
        Ok(e)
    } else {
        match paso_de_matriz(e, ls[0]) {
            Err(x) => Err(x),
            Ok(e2) => matriz_leida(e2, ls.drop_first()),
        }
    }
}

/// Nothing read yet.
pub open spec fn matriz_sin_leer() -> MatrizLeida {
    MatrizLeida { dimension: 0, en_matriz: false, terminada: false, valores: Seq::empty() }
}

/// The values cut into rows of `n`.
pub open spec fn en_filas(valores: Seq<u32>, n: int) -> Seq<Seq<u32>> {
    Seq::new(n as nat, |i: int| valores.subrange(i * n, i * n + n))
}

/// What the text of a matrix file holds: its dimension and its values, or
/// why it cannot be read.
pub open spec fn matriz_en(texto: Seq<u8>) -> Result<(u32, Seq<u32>), ErrorMatriz> {
    match matriz_leida(matriz_sin_leer(), lineas(texto)) {
        Err(x) => Err(x),
        Ok(e) => if e.dimension == 0 {
            Err(ErrorMatriz::SinDimension)
        } else if e.valores.len() != e.dimension * e.dimension {
            Err(
                ErrorMatriz::CantidadDistinta {
                    esperados: (e.dimension * e.dimension) as u64,
                    hallados: e.valores.len() as u64,
                },
            )
        } else {
            Ok((e.dimension, e.valores))
        },
    }
}

/// The numbers that the fields of a line write, added to `valores`; whether
/// every field wrote one.
fn agregar_valores(valores: &mut Vec<u32>, linea: &[u8]) -> (r: bool)
    ensures
        r == son_numeros(campos(linea@)),
        r ==> final(valores)@ == old(valores)@ + numeros(campos(linea@)),
{
    let piezas: Vec<Vec<u8>> = partir_campos(linea);
    let ghost cs = campos(linea@);
    let total: usize = piezas.len();
    let mut k: usize = 0;
    assert(old(valores)@ + numeros(cs).take(0) =~= old(valores)@);
    while k < total
        invariant
            cs == campos(linea@),
            cs == vista_tabla(piezas@),
            total == piezas@.len(),
            k <= total,
            forall|a: int| 0 <= a < k ==> numero(#[trigger] cs[a]) is Some,
            valores@ == old(valores)@ + numeros(cs).take(k as int),
        decreases total - k,
    {
        assert(cs[k as int] == piezas@[k as int]@);
        match leer_numero(piezas[k].as_slice()) {
            Some(x) => {
                valores.push(x);
                assert(valores@ =~= old(valores)@ + numeros(cs).take(k as int + 1));
            },
            None => {
                assert(numero(cs[k as int]) is None);
                return false;
            },
        }
        k += 1;
    }
    assert(numeros(cs).take(total as int) =~= numeros(cs));
    true
}

/// The values cut into rows of `n`.
fn cortar_en_filas(valores: &Vec<u32>, n: usize) -> (matriz: Distancias)
    requires
        valores@.len() == n * n,
    ensures
        vista_tabla(matriz@) == en_filas(valores@, n as int),
{
    let mut matriz: Distancias = Vec::new();
    let m: usize = valores.len();
    let mut i: usize = 0;
    while i < n
        invariant
            valores@.len() == n * n,
            m == n * n,
            i <= n,
            matriz@.len() == i,
            forall|a: int|
                0 <= a < i ==> (#[trigger] matriz@[a])@ == valores@.subrange(a * n, a * n + n),
        decreases n - i,
    {
        proof {
            assert(i * n + n <= n * n) by (nonlinear_arith)
                requires
                    0 <= i < n,
            ;
            assert(0 <= i * n) by (nonlinear_arith)
                requires
                    0 <= i,
                    0 <= n,
            ;
        }
        let desde: usize = i * n;
        let mut fila: Vec<u32> = Vec::new();
        let mut j: usize = 0;
        while j < n
            invariant
                valores@.len() == n * n,
                m == n * n,
                desde == i * n,
                desde + n <= n * n,
                j <= n,
                fila@ == valores@.subrange(desde as int, desde + j),
            decreases n - j,
        {
            fila.push(valores[desde + j]);
            assert(fila@ =~= valores@.subrange(desde as int, desde + j + 1));
            j += 1;
        }
        matriz.push(fila);
        i += 1;
    }
    assert(vista_tabla(matriz@) =~= en_filas(valores@, n as int));
    matriz
}

/// Reads the text of a matrix file: the dimension after `DIMENSION:` and,
/// after `EDGE_WEIGHT_SECTION`, the values of the matrix row by row up to
/// `EOF`. Fails on a number that cannot be read, if no dimension is
/// given, or if the values are not dimension times dimension.
pub fn leer_matriz(texto: &[u8]) -> (r: Result<MatrizFromFile, ErrorMatriz>)
    ensures
        match matriz_en(texto@) {
            Ok((dimension, valores)) => {
                &&& r is Ok
                &&& r->Ok_0.dimension == dimension
                &&& vista_tabla(r->Ok_0.matriz@) == en_filas(valores, dimension as int)
            },
            Err(x) => r is Err && r->Err_0 == x,
        },
{
    let renglones: Vec<Vec<u8>> = partir_lineas(texto);
    let ghost todas = lineas(texto@);
    let total: usize = renglones.len();
    let mut dimension: u32 = 0;
    let mut en_matriz: bool = false;
    let mut terminada: bool = false;
    let mut valores: Vec<u32> = Vec::new();
    let clave_dimension: &[u8] = "DIMENSION:".as_bytes();
    let mut k: usize = 0;
    assert(todas.skip(0) =~= todas);
    while k < total
        invariant
            todas == lineas(texto@),
            todas == vista_tabla(renglones@),
            total == renglones@.len(),
            k <= total,
            clave_dimension@ == clave("DIMENSION:"),
            matriz_leida(matriz_sin_leer(), todas) == matriz_leida(
                MatrizLeida { dimension, en_matriz, terminada, valores: valores@ },
                todas.skip(k as int),
            ),
        decreases total - k,
    {
        proof {
            assert(todas.skip(k as int)[0] == renglones@[k as int]@);
            assert(todas.skip(k as int).drop_first() =~= todas.skip(k as int + 1));
        }
        let linea: &[u8] = renglones[k].as_slice();
        if terminada {
        } else if empieza(linea, clave_dimension) {
            let resto: Vec<u8> = copiar_tramo(linea, clave_dimension.len(), linea.len());
            assert(resto@ =~= linea@.skip(clave_dimension@.len() as int));
            let limpio: Vec<u8> = recortar(resto.as_slice());
            match leer_numero(limpio.as_slice()) {
                Some(d) => {
                    dimension = d;
                },
                None => {
                    return Err(ErrorMatriz::DimensionIlegible);
                },
            }
        } else {
            let limpia: Vec<u8> = recortar(linea);
            if iguales(limpia.as_slice(), "EDGE_WEIGHT_SECTION".as_bytes()) {
                en_matriz = true;
            } else if en_matriz {
                if iguales(limpia.as_slice(), "EOF".as_bytes()) {
                    terminada = true;
                } else if !agregar_valores(&mut valores, linea) {
                    return Err(ErrorMatriz::ValorIlegible);
                }
            }
        }
        k += 1;
    }
    if dimension == 0 {
        return Err(ErrorMatriz::SinDimension);
    }
    assert(dimension * dimension <= 0xffff_ffff * 0xffff_ffff) by (nonlinear_arith)
        requires
            0 <= dimension <= 0xffff_ffff,
    ;
    let esperados: u64 = (dimension as u64) * (dimension as u64);
    if valores.len() as u64 != esperados {
        return Err(ErrorMatriz::CantidadDistinta { esperados, hallados: valores.len() as u64 });
    }
    let matriz: Distancias = cortar_en_filas(&valores, dimension as usize);
    Ok(MatrizFromFile::new(matriz, dimension))
}

} // verus!

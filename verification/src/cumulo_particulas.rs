//! Particle swarm optimisation: the objective functions' domains, the
//! polynomial objectives and the constants of the velocity models, with
//! positions held in thousandths.

use vstd::prelude::*;

verus! {

/// Number of coordinates of a particle.
pub const DIMENSIONES: usize = 2;

/// An objective function with a domain: every coordinate of a position lies
/// between `min_posicion` and `max_posicion`, both in thousandths.
pub trait FuncionObjetivo {
    /// The lower bound of the domain, in thousandths.
    spec fn minimo(&self) -> int;

    /// The upper bound of the domain, in thousandths.
    spec fn maximo(&self) -> int;

    fn min_posicion(&self) -> (r: i32)
        ensures
            r == self.minimo(),
    ;

    fn max_posicion(&self) -> (r: i32)
        ensures
            r == self.maximo(),
    ;
}

/// The sphere function: the sum of the squares of the coordinates.
pub struct FuncionEsfera;

/// The Rosenbrock function.
pub struct FuncionRosenbrock;

/// The Rastrigin function.
pub struct FuncionRastrigin;

/// The Schwefel function.
pub struct FuncionSchwefel;

/// The Ackley function.
pub struct FuncionAckley;

impl FuncionObjetivo for FuncionEsfera {
    open spec fn minimo(&self) -> int {
        -5120
    }

    open spec fn maximo(&self) -> int {
        5120
    }

    fn min_posicion(&self) -> (r: i32) {
        -5120
    }

    fn max_posicion(&self) -> (r: i32) {
        5120
    }
}

impl FuncionObjetivo for FuncionRosenbrock {
    open spec fn minimo(&self) -> int {
        -2048
    }

    open spec fn maximo(&self) -> int {
        2048
    }

    fn min_posicion(&self) -> (r: i32) {
        -2048
    }

    fn max_posicion(&self) -> (r: i32) {
        2048
    }
}

impl FuncionObjetivo for FuncionRastrigin {
    open spec fn minimo(&self) -> int {
        -5120
    }

    open spec fn maximo(&self) -> int {
        5120
    }

    fn min_posicion(&self) -> (r: i32) {
        -5120
    }

    fn max_posicion(&self) -> (r: i32) {
        5120
    }
}

impl FuncionObjetivo for FuncionSchwefel {
    open spec fn minimo(&self) -> int {
        -500000
    }

    open spec fn maximo(&self) -> int {
        500000
    }

    fn min_posicion(&self) -> (r: i32) {
        -500000
    }

    fn max_posicion(&self) -> (r: i32) {
        500000
    }
}

impl FuncionObjetivo for FuncionAckley {
    open spec fn minimo(&self) -> int {
        -32768
    }

    open spec fn maximo(&self) -> int {
        32768
    }

    fn min_posicion(&self) -> (r: i32) {
        -32768
    }

    fn max_posicion(&self) -> (r: i32) {
        32768
    }
}

/// A coordinate brought back into the domain `[minimo, maximo]`.
pub open spec fn ajustada(x: int, minimo: int, maximo: int) -> int {
    if x > maximo {
        maximo
    } else if x < minimo {
        minimo
    } else {
        x
    }
}

/// Brings every coordinate of the position back into the domain of the
/// function: one above the upper bound becomes the upper bound, one below
/// the lower bound becomes the lower bound.
pub fn ajustar_al_dominio<F: FuncionObjetivo>(funcion: &F, posicion: &mut Vec<i32>)
    ensures
        final(posicion)@.len() == old(posicion)@.len(),
        forall|i: int|
            0 <= i < old(posicion)@.len() ==> #[trigger] final(posicion)@[i] == ajustada(
                old(posicion)@[i] as int,
                funcion.minimo(),
                funcion.maximo(),
            ),
{
    let n: usize = posicion.len();
    let minimo: i32 = funcion.min_posicion();
    let maximo: i32 = funcion.max_posicion();
    let mut i: usize = 0;
    while i < n
        invariant
            n == old(posicion)@.len(),
            posicion@.len() == n,
            i <= n,
            minimo == funcion.minimo(),
            maximo == funcion.maximo(),
            forall|a: int|
                0 <= a < n ==> #[trigger] posicion@[a] == (if a < i {
                    ajustada(old(posicion)@[a] as int, funcion.minimo(), funcion.maximo())
                } else {
                    old(posicion)@[a] as int
                }),
        decreases n - i,
    {
        if posicion[i] > maximo {
            posicion.set(i, maximo);
        } else if posicion[i] < minimo {
            posicion.set(i, minimo);
        }
        i += 1;
    }
}

/// The sum of the squares of the coordinates.
pub open spec fn suma_de_cuadrados(posicion: Seq<i32>) -> int
    decreases posicion.len(),
{
    if posicion.len() == 0 {
        0
    } else {
        suma_de_cuadrados(posicion.drop_last()) + posicion.last() * posicion.last()
    }
}

/// The Rosenbrock sum over consecutive coordinates in thousandths, scaled by
/// ten to the twelfth: each pair `(x, y)` adds
/// `100 (1000 y - x^2)^2 + 1000000 (1000 - x)^2`.
pub open spec fn suma_de_rosenbrock(posicion: Seq<i32>) -> int
    decreases posicion.len(),
{
    if posicion.len() < 2 {
        0
    } else {
        let x = posicion[posicion.len() - 2] as int;
        let y = posicion[posicion.len() - 1] as int;
        suma_de_rosenbrock(posicion.drop_last()) + 100 * ((1000 * y - x * x) * (1000 * y - x * x))
            + 1000000 * ((1000 - x) * (1000 - x))
    }
}

/// Every coordinate lies in the domain of the function.
pub open spec fn en_dominio<F: FuncionObjetivo>(funcion: &F, posicion: Seq<i32>) -> bool {
    forall|i: int|
        0 <= i < posicion.len() ==> funcion.minimo() <= #[trigger] posicion[i] <= funcion.maximo()
}

impl FuncionEsfera {
    /// The value of the sphere function at a position in thousandths, in
    /// millionths.
    pub fn evaluar(&self, posicion: &Vec<i32>) -> (valor: u128)
        ensures
            valor == suma_de_cuadrados(posicion@),
    {
        let n: usize = posicion.len();
        let mut valor: u128 = 0;
        let mut i: usize = 0;
        assert(posicion@.take(0) =~= Seq::<i32>::empty());
        while i < n
            invariant
                n == posicion@.len(),
                i <= n,
                valor == suma_de_cuadrados(posicion@.take(i as int)),
                valor <= i * 0x4000_0000_0000_0000,
            decreases n - i,
        {
            let x: i64 = posicion[i] as i64;
            proof {
                assert(posicion@.take(i as int + 1).drop_last() =~= posicion@.take(i as int));
                assert(0 <= x * x <= 0x4000_0000_0000_0000) by (nonlinear_arith)
                    requires
                        -0x8000_0000 <= x <= 0x7fff_ffff,
                ;
                assert(i * 0x4000_0000_0000_0000 + 0x4000_0000_0000_0000 == (i + 1)
                    * 0x4000_0000_0000_0000) by (nonlinear_arith);
                assert((i + 1) * 0x4000_0000_0000_0000 <= 0xffff_ffff_ffff_ffff
                    * 0x4000_0000_0000_0000) by (nonlinear_arith)
                    requires
                        i + 1 <= 0xffff_ffff_ffff_ffff,
                ;
            }
            let cuadrado: i64 = x * x;
            valor = valor + cuadrado as u128;
            i += 1;
        }
        assert(posicion@.take(n as int) =~= posicion@);
        valor
    }
}

impl FuncionRosenbrock {
    /// The value of the Rosenbrock function at a position of its domain in
    /// thousandths, scaled by ten to the twelfth.
    pub fn evaluar(&self, posicion: &Vec<i32>) -> (valor: u128)
        requires
            en_dominio(self, posicion@),
        ensures
            valor == suma_de_rosenbrock(posicion@),
    {
        let n: usize = posicion.len();
        let mut valor: u128 = 0;
        if n < 2 {
            return valor;
        }
        let mut i: usize = 1;
        assert(posicion@.take(1).len() < 2);
        while i < n
            invariant
                n == posicion@.len(),
                1 <= i <= n,
                en_dominio(self, posicion@),
                valor == suma_de_rosenbrock(posicion@.take(i as int)),
                valor <= i * 0x1_0000_0000_0000_0000,
            decreases n - i,
        {
            let x: i64 = posicion[i - 1] as i64;
            let y: i64 = posicion[i] as i64;
            proof {
                assert(posicion@.take(i as int + 1).drop_last() =~= posicion@.take(i as int));
                assert(-2048 <= x <= 2048 && -2048 <= y <= 2048);
                assert(0 <= x * x <= 2048 * 2048) by (nonlinear_arith)
                    requires
                        -2048 <= x <= 2048,
                ;
            }
            let curva: i64 = 1000 * y - x * x;
            let resto: i64 = 1000 - x;
            proof {
                assert(0 <= curva * curva <= 6242304 * 6242304) by (nonlinear_arith)
                    requires
                        -6242304 <= curva <= 6242304,
                ;
                assert(0 <= resto * resto <= 3048 * 3048) by (nonlinear_arith)
                    requires
                        -3048 <= resto <= 3048,
                ;
                assert(i * 0x1_0000_0000_0000_0000 + 0x1_0000_0000_0000_0000 == (i + 1)
                    * 0x1_0000_0000_0000_0000) by (nonlinear_arith);
                assert((i + 1) * 0x1_0000_0000_0000_0000 <= 0xffff_ffff_ffff_ffff
                    * 0x1_0000_0000_0000_0000) by (nonlinear_arith)
                    requires
                        i + 1 <= 0xffff_ffff_ffff_ffff,
                ;
            }
            let primero: i64 = 100 * (curva * curva);
            let segundo: i64 = 1000000 * (resto * resto);
            valor = valor + primero as u128 + segundo as u128;
            i += 1;
        }
        assert(posicion@.take(n as int) =~= posicion@);
        valor
    }
}

/// The velocity model with inertia: the old velocity is kept in part, and
/// the particle is pulled to its own best and to the swarm's best.
pub struct ModeloInercia;

/// The velocity model with a constriction factor on the whole new velocity.
pub struct ModeloConstriccion;

/// The model without velocity: each coordinate is drawn from a normal
/// distribution between the particle's best and the swarm's best.
pub struct ModeloBarebones;

impl ModeloInercia {
    /// The part of the old velocity that is kept, in thousandths: 0.729.
    pub fn inercia(&self) -> (w: u32)
        ensures
            w == 729,
    {
        729
    }
}

impl ModeloConstriccion {
    /// The constriction factor, in ten-thousandths: 0.7298.
    pub fn factor(&self) -> (k: u32)
        ensures
            k == 7298,
    {
        7298
    }
}

impl ModeloBarebones {
    /// Twice the mean of the distribution for one coordinate: the sum of
    /// the particle's best and the swarm's best.
    pub fn doble_media(&self, mejor_personal: i32, mejor_global: i32) -> (s: i64)
        ensures
            s == mejor_personal + mejor_global,
    {
        mejor_personal as i64 + mejor_global as i64
    }

    /// The standard deviation of the distribution for one coordinate: the
    /// distance between the particle's best and the swarm's best.
    pub fn desviacion(&self, mejor_personal: i32, mejor_global: i32) -> (d: u32)
        ensures
            d == if mejor_personal >= mejor_global {
                mejor_personal - mejor_global
            } else {
                mejor_global - mejor_personal
            },
    {
        if mejor_personal >= mejor_global {
            (mejor_personal as i64 - mejor_global as i64) as u32
        } else {
            (mejor_global as i64 - mejor_personal as i64) as u32
        }
    }
}

} // verus!

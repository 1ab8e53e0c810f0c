use vstd::prelude::*;
use crate::rutas_vehiculares::datos::{Cliente, DatosVRP, Nodo};
use crate::tablas::vista_tabla;
use crate::texto::{
    buscar, campos, clave, copiar_tramo, empieza, empieza_con, iguales, leer_numero, lineas, numero,
    numeros, partir_campos, partir_lineas, primera_aparicion, recortada, recortar, son_numeros,
};

verus! {

/// The part of an instance file that a line belongs to.
#[derive(Clone, Copy, Debug, PartialEq, Eq, Structural)]
pub enum Seccion {
    /// The header, before any section.
    Ninguna,
    /// After `NODE_COORD_SECTION`: one node per line.
    Nodos,
    /// After `DEMAND_SECTION`: one demand per line.
    Demandas,
    /// After `DEPOT_SECTION`: the depot.
    Deposito,
}

/// Why the text of an instance cannot be read.
#[derive(Clone, Copy, Debug, PartialEq, Eq, Structural)]
pub enum ErrorLectura {
    /// What follows `DIMENSION :` is not a number.
    DimensionIlegible,
    /// What follows `CAPACITY :` is not a number.
    CapacidadIlegible,
    /// A line of the node section holds something that is not a number.
    NodoIlegible,
    /// A line of the demand section holds something that is not a number.
    DemandaIlegible,
    /// A line of the depot section is not a number.
    DepositoIlegible,
}

/// What has been read of an instance so far.
pub struct Leido {
    pub seccion: Seccion,
    pub dimension: u32,
    pub capacidad: u32,
    pub nodos: Seq<Nodo>,
    pub clientes: Seq<Cliente>,
    pub deposito_id: u32,
    pub n_vehiculos: u32,
}

/// The fleet size that a comment states after `No of trucks:`, up to the
/// next comma or to the end of the comment; none if there is no such number.
pub open spec fn vehiculos_en(comentario: Seq<u8>) -> Option<u32> {
    match primera_aparicion(comentario, clave("No of trucks:"), 0) {
        None => None,
        Some(i) => {
            let resto = comentario.skip(i + clave("No of trucks:").len());
            match primera_aparicion(resto, clave(","), 0) {
                Some(fin) => numero(recortada(resto.take(fin))),
                None => numero(recortada(resto)),
            }
        },
    }
}

/// A line of data, by the section it stands in. In the node section three
/// numbers are a node, in the demand section two numbers are a demand, and
/// lines with another count of numbers are passed over; in the depot section
/// the line is the depot; in the header the line is passed over.
pub open spec fn con_datos(e: Leido, l: Seq<u8>) -> Result<Leido, ErrorLectura> {
    match e.seccion {
        Seccion::Ninguna => Ok(e),
        Seccion::Nodos => if !son_numeros(campos(l)) {
            Err(ErrorLectura::NodoIlegible)
        } else if campos(l).len() == 3 {
            let f = numeros(campos(l));
            Ok(Leido { nodos: e.nodos.push(Nodo { id: f[0], x: f[1], y: f[2] }), ..e })
        } else {
            Ok(e)
        },
        Seccion::Demandas => if !son_numeros(campos(l)) {
            Err(ErrorLectura::DemandaIlegible)
        } else if campos(l).len() == 2 {
            let f = numeros(campos(l));
            Ok(Leido { clientes: e.clientes.push(Cliente { id: f[0], demanda: f[1] }), ..e })
        } else {
            Ok(e)
        },
        Seccion::Deposito => match numero(l) {
            Some(d) => Ok(Leido { deposito_id: d, ..e }),
            None => Err(ErrorLectura::DepositoIlegible),
        },
    }
}

/// What a comment line leaves: the fleet size, if the comment states one.
pub open spec fn con_comentario(e: Leido, l: Seq<u8>) -> Leido {
    if empieza_con(l, clave("COMMENT :")) {
        match vehiculos_en(recortada(l.skip(clave("COMMENT :").len() as int))) {
            Some(v) => Leido { n_vehiculos: v, ..e },
            None => e,
        }
    } else {
        e
    }
}

/// One line of an instance file. The line is taken without the white space
/// at its ends. A comment may state the fleet size. `DIMENSION :` and
/// `CAPACITY :` are followed by their number; the three section names open
/// their sections; `-1`, `EOF` and empty lines are passed over; any other
/// line is data of the section it stands in, and so is a dimension, a
/// capacity or a comment that stands inside a section.
pub open spec fn paso(e: Leido, linea: Seq<u8>) -> Result<Leido, ErrorLectura> {
    let l = recortada(linea);
    let e = con_comentario(e, l);
    if empieza_con(l, clave("DIMENSION :")) {
        match numero(recortada(l.skip(clave("DIMENSION :").len() as int))) {
            Some(d) => con_datos(Leido { dimension: d, ..e }, l),
            None => Err(ErrorLectura::DimensionIlegible),
        }
    } else if empieza_con(l, clave("CAPACITY :")) {
        match numero(recortada(l.skip(clave("CAPACITY :").len() as int))) {
            Some(c) => con_datos(Leido { capacidad: c, ..e }, l),
            None => Err(ErrorLectura::CapacidadIlegible),
        }
    } else if empieza_con(l, clave("NODE_COORD_SECTION")) {
        Ok(Leido { seccion: Seccion::Nodos, ..e })
    } else if empieza_con(l, clave("DEMAND_SECTION")) {
        Ok(Leido { seccion: Seccion::Demandas, ..e })
    } else if empieza_con(l, clave("DEPOT_SECTION")) {
        Ok(Leido { seccion: Seccion::Deposito, ..e })
    } else if l == clave("-1") || l == clave("EOF") || l.len() == 0 {
        Ok(e)
    } else {
        con_datos(e, l)
    }
}

/// The lines read in order, up to the first that cannot be read.
pub open spec fn leidas(e: Leido, ls: Seq<Seq<u8>>) -> Result<Leido, ErrorLectura>
    decreases ls.len(),
{
    if ls.len() == 0 {
        Ok(e)
    } else {
        match paso(e, ls[0]) {
            Err(x) => Err(x),
            Ok(e2) => leidas(e2, ls.drop_first()),
        }
    }
}

/// Nothing read yet: the header, every number zero, no node and no demand.
pub open spec fn nada_leido() -> Leido {
    Leido {
        seccion: Seccion::Ninguna,
        dimension: 0,
        capacidad: 0,
        nodos: Seq::empty(),
        clientes: Seq::empty(),
        deposito_id: 0,
        n_vehiculos: 0,
    }
}

/// What the text of an instance file holds.
pub open spec fn instancia_en(texto: Seq<u8>) -> Result<Leido, ErrorLectura> {
    leidas(nada_leido(), lineas(texto))
}

/// The instance and the section as what has been read.
pub open spec fn leido_de(d: DatosVRP, seccion: Seccion) -> Leido {
    Leido {
        seccion,
        dimension: d.dimension,
        capacidad: d.capacidad,
        nodos: d.nodos@,
        clientes: d.clientes@,
        deposito_id: d.deposito_id,
        n_vehiculos: d.n_vehiculos,
    }
}

/// The instance holds what was read.
pub open spec fn es_lectura(d: DatosVRP, e: Leido) -> bool {
    leido_de(d, e.seccion) == e
}

/// The known optimal cost that the lines of a solution file state: the
/// number after `Cost ` on the first line that has one.
pub open spec fn costo_en(ls: Seq<Seq<u8>>) -> Option<u32>
    decreases ls.len(),
{
    if ls.len() == 0 {
        None
    } else {
        let l = recortada(ls[0]);
        if empieza_con(l, clave("Cost ")) && numero(
            recortada(l.skip(clave("Cost ").len() as int)),
        ) is Some {
            numero(recortada(l.skip(clave("Cost ").len() as int)))
        } else {
            costo_en(ls.drop_first())
        }
    }
}

/// The text after the first `k` bytes, without the white space at its ends.
fn resto_recortado(l: &[u8], k: usize) -> (r: Vec<u8>)
    requires
        k <= l@.len(),
    ensures
        r@ == recortada(l@.skip(k as int)),
{
    let resto: Vec<u8> = copiar_tramo(l, k, l.len());
    assert(resto@ =~= l@.skip(k as int));
    recortar(resto.as_slice())
}

/// The fleet size that a comment states, if it states one.
fn leer_vehiculos(comentario: &[u8]) -> (r: Option<u32>)
    ensures
        r == vehiculos_en(comentario@),
{
    let patron: &[u8] = "No of trucks:".as_bytes();
    let largo: usize = comentario.len();
    match buscar(comentario, patron) {
        None => None,
        Some(i) => {
            let resto: Vec<u8> = copiar_tramo(comentario, i + patron.len(), largo);
            assert(resto@ =~= comentario@.skip(i + patron@.len()));
            match buscar(resto.as_slice(), ",".as_bytes()) {
                Some(fin) => {
                    let antes: Vec<u8> = copiar_tramo(resto.as_slice(), 0, fin);
                    assert(antes@ =~= resto@.take(fin as int));
                    let limpio: Vec<u8> = recortar(antes.as_slice());
                    leer_numero(limpio.as_slice())
                },
                None => {
                    let limpio: Vec<u8> = recortar(resto.as_slice());
                    leer_numero(limpio.as_slice())
                },
            }
        },
    }
}

/// The numbers that the fields of a line write, if every field writes one.
fn leer_numeros(l: &[u8]) -> (r: Option<Vec<u32>>)
    ensures
        r is Some <==> son_numeros(campos(l@)),
        r is Some ==> r->0@ == numeros(campos(l@)),
{
    let piezas: Vec<Vec<u8>> = partir_campos(l);
    let ghost cs = campos(l@);
    let total: usize = piezas.len();
    let mut r: Vec<u32> = Vec::new();
    let mut k: usize = 0;
    while k < total
        invariant
            cs == campos(l@),
            cs == vista_tabla(piezas@),
            total == piezas@.len(),
            k <= total,
            r@.len() == k,
            forall|a: int| 0 <= a < k ==> numero(#[trigger] cs[a]) == Some(r@[a]),
        decreases total - k,
    {
        assert(cs[k as int] == piezas@[k as int]@);
        match leer_numero(piezas[k].as_slice()) {
            Some(x) => {
                r.push(x);
            },
            None => {
                assert(numero(cs[k as int]) is None);
                return None;
            },
        }
        k += 1;
    }
    assert(r@ =~= numeros(cs));
    Some(r)
}

/// Takes a line of data into the instance, by the section it stands in.
fn leer_datos(datos: &mut DatosVRP, seccion: Seccion, l: &[u8]) -> (r: Result<(), ErrorLectura>)
    ensures
        match con_datos(leido_de(*old(datos), seccion), l@) {
            Ok(e) => r is Ok && leido_de(*final(datos), seccion) == e,
            Err(x) => r == Err::<(), ErrorLectura>(x),
        },
{
    match seccion {
        Seccion::Ninguna => Ok(()),
        Seccion::Nodos => match leer_numeros(l) {
            None => Err(ErrorLectura::NodoIlegible),
            Some(f) => {
                if f.len() == 3 {
                    datos.nodos.push(Nodo { id: f[0], x: f[1], y: f[2] });
                }
                Ok(())
            },
        },
        Seccion::Demandas => match leer_numeros(l) {
            None => Err(ErrorLectura::DemandaIlegible),
            Some(f) => {
                if f.len() == 2 {
                    datos.clientes.push(Cliente { id: f[0], demanda: f[1] });
                }
                Ok(())
            },
        },
        Seccion::Deposito => match leer_numero(l) {
            Some(d) => {
                datos.deposito_id = d;
                Ok(())
            },
            None => Err(ErrorLectura::DepositoIlegible),
        },
    }
}

/// Takes one line of an instance file into the instance.
fn leer_linea(datos: &mut DatosVRP, seccion: &mut Seccion, linea: &[u8]) -> (r: Result<
    (),
    ErrorLectura,
>)
    ensures
        match paso(leido_de(*old(datos), *old(seccion)), linea@) {
            Ok(e) => r is Ok && leido_de(*final(datos), *final(seccion)) == e,
            Err(x) => r == Err::<(), ErrorLectura>(x),
        },
{
    let limpia: Vec<u8> = recortar(linea);
    let l: &[u8] = limpia.as_slice();
    let comentario: &[u8] = "COMMENT :".as_bytes();
    if empieza(l, comentario) {
        let dicho: Vec<u8> = resto_recortado(l, comentario.len());
        match leer_vehiculos(dicho.as_slice()) {
            Some(v) => {
                datos.n_vehiculos = v;
            },
            None => {},
        }
    }
    let dimension: &[u8] = "DIMENSION :".as_bytes();
    let capacidad: &[u8] = "CAPACITY :".as_bytes();
    if empieza(l, dimension) {
        let dicho: Vec<u8> = resto_recortado(l, dimension.len());
        match leer_numero(dicho.as_slice()) {
            Some(d) => {
                datos.dimension = d;
                leer_datos(datos, *seccion, l)
            },
            None => Err(ErrorLectura::DimensionIlegible),
        }
    } else if empieza(l, capacidad) {
        let dicho: Vec<u8> = resto_recortado(l, capacidad.len());
        match leer_numero(dicho.as_slice()) {
            Some(c) => {
                datos.capacidad = c;
                leer_datos(datos, *seccion, l)
            },
            None => Err(ErrorLectura::CapacidadIlegible),
        }
    } else if empieza(l, "NODE_COORD_SECTION".as_bytes()) {
        *seccion = Seccion::Nodos;
        Ok(())
    } else if empieza(l, "DEMAND_SECTION".as_bytes()) {
        *seccion = Seccion::Demandas;
        Ok(())
    } else if empieza(l, "DEPOT_SECTION".as_bytes()) {
        *seccion = Seccion::Deposito;
        Ok(())
    } else if iguales(l, "-1".as_bytes()) || iguales(l, "EOF".as_bytes()) || l.len() == 0 {
        Ok(())
    } else {
        leer_datos(datos, *seccion, l)
    }
}

/// Reads the text of an instance file: dimension, capacity, fleet size,
/// nodes, demands and depot. Fails on the first line that cannot be read.
pub fn leer_matriz(texto: &[u8]) -> (r: Result<DatosVRP, ErrorLectura>)
    ensures
        match instancia_en(texto@) {
            Ok(e) => r is Ok && es_lectura(r->Ok_0, e),
            Err(x) => r is Err && r->Err_0 == x,
        },
{
    let renglones: Vec<Vec<u8>> = partir_lineas(texto);
    let ghost todas = lineas(texto@);
    let total: usize = renglones.len();
    let mut datos: DatosVRP = DatosVRP {
        nodos: Vec::new(),
        dimension: 0,
        capacidad: 0,
        deposito_id: 0,
        clientes: Vec::new(),
        n_vehiculos: 0,
    };
    let mut seccion: Seccion = Seccion::Ninguna;
    let mut k: usize = 0;
    proof {
        assert(todas.skip(0) =~= todas);
        assert(leido_de(datos, seccion) == nada_leido());
    }
    while k < total
        invariant
            todas == lineas(texto@),
            todas == vista_tabla(renglones@),
            total == renglones@.len(),
            k <= total,
            instancia_en(texto@) == leidas(leido_de(datos, seccion), todas.skip(k as int)),
        decreases total - k,
    {
        proof {
            assert(todas.skip(k as int)[0] == renglones@[k as int]@);
            assert(todas.skip(k as int).drop_first() =~= todas.skip(k as int + 1));
        }
        match leer_linea(&mut datos, &mut seccion, renglones[k].as_slice()) {
            Ok(()) => {},
            Err(x) => {
                return Err(x);
            },
        }
        k += 1;
    }
    Ok(datos)
}

/// Reads the known optimal cost from the text of a solution file: the
/// number after `Cost ` on the first line that has one.
pub fn leer_valor_optimo(texto: &[u8]) -> (r: Option<u32>)
    ensures
        r == costo_en(lineas(texto@)),
{
    let renglones: Vec<Vec<u8>> = partir_lineas(texto);
    let ghost todas = lineas(texto@);
    let total: usize = renglones.len();
    let patron: &[u8] = "Cost ".as_bytes();
    let mut k: usize = 0;
    assert(todas.skip(0) =~= todas);
    while k < total
        invariant
            todas == lineas(texto@),
            todas == vista_tabla(renglones@),
            total == renglones@.len(),
            k <= total,
            patron@ == clave("Cost "),
            costo_en(todas) == costo_en(todas.skip(k as int)),
        decreases total - k,
    {
        proof {
            assert(todas.skip(k as int)[0] == renglones@[k as int]@);
            assert(todas.skip(k as int).drop_first() =~= todas.skip(k as int + 1));
        }
        let limpia: Vec<u8> = recortar(renglones[k].as_slice());
        if empieza(limpia.as_slice(), patron) {
            let dicho: Vec<u8> = resto_recortado(limpia.as_slice(), patron.len());
            match leer_numero(dicho.as_slice()) {
                Some(c) => {
                    return Some(c);
                },
                None => {},
            }
        }
        k += 1;
    }
    None
}

} // verus!

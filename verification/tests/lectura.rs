use metaheuristicas::rutas_vehiculares::{
    leer_matriz, leer_valor_optimo, validar_datos, ErrorLectura,
};
use metaheuristicas::texto::{
    blanco, buscar, coincide_en, copiar_tramo, empieza, iguales, leer_numero, partir_campos,
    partir_lineas, recortar,
};

const INSTANCIA: &str = "NAME : A-n5-k2
COMMENT : (Augerat et al, No of trucks: 2, Optimal value: 150)
TYPE : CVRP
DIMENSION : 5
EDGE_WEIGHT_TYPE : EUC_2D
CAPACITY : 10
NODE_COORD_SECTION
 1 0 0
 2 0 30
 3 40 30
 4 40 0
 5 20 45
DEMAND_SECTION
1 0
2 3
3 4
4 5
5 6
DEPOT_SECTION
 1
 -1
EOF
";

fn b(s: &str) -> Vec<u8> {
    s.as_bytes().to_vec()
}

#[test]
fn numeros_que_se_leen() {
    assert_eq!(leer_numero(b"0"), Some(0));
    assert_eq!(leer_numero(b"42"), Some(42));
    assert_eq!(leer_numero(b"+7"), Some(7));
    assert_eq!(leer_numero(b"007"), Some(7));
    assert_eq!(leer_numero(b"4294967295"), Some(u32::MAX));
    assert_eq!(leer_numero(b"+0004294967295"), Some(u32::MAX));
}

#[test]
fn numeros_que_no_se_leen() {
    assert_eq!(leer_numero(b""), None);
    assert_eq!(leer_numero(b"+"), None);
    assert_eq!(leer_numero(b"-1"), None);
    assert_eq!(leer_numero(b"++1"), None);
    assert_eq!(leer_numero(b"12a"), None);
    assert_eq!(leer_numero(b"a12"), None);
    assert_eq!(leer_numero(b" 12"), None);
    assert_eq!(leer_numero(b"12 "), None);
    assert_eq!(leer_numero(b"1.5"), None);
    assert_eq!(leer_numero(b"4294967296"), None);
    assert_eq!(leer_numero(b"99999999999999999999999999999999"), None);
    assert_eq!(leer_numero(b"99999999999999999999999999999999x"), None);
}

#[test]
fn numeros_como_los_lee_la_biblioteca_estandar() {
    for texto in ["0", "+5", "-5", "", "+", "12", "012", "4294967295", "4294967296", "1 ", "x"] {
        assert_eq!(leer_numero(texto.as_bytes()), texto.parse::<u32>().ok(), "{:?}", texto);
    }
}

#[test]
fn bytes_en_blanco() {
    for b in 0..=255u8 {
        assert_eq!(blanco(b), b.is_ascii_whitespace() || b == 0x0b, "{}", b);
    }
}

#[test]
fn tramos_y_coincidencias() {
    assert_eq!(copiar_tramo(b"abcdef", 2, 5), b("cde"));
    assert_eq!(copiar_tramo(b"abcdef", 0, 6), b("abcdef"));
    assert_eq!(copiar_tramo(b"abcdef", 3, 3), b(""));
    assert!(coincide_en(b"abcdef", b"cd", 2));
    assert!(!coincide_en(b"abcdef", b"cd", 1));
    assert!(coincide_en(b"abcdef", b"", 6));
    assert!(coincide_en(b"abcdef", b"abcdef", 0));
}

#[test]
fn recorte_de_blancos() {
    assert_eq!(recortar(b"  hola \t\r\n"), b("hola"));
    assert_eq!(recortar(b"hola"), b("hola"));
    assert_eq!(recortar(b" a b "), b("a b"));
    assert_eq!(recortar(b" \t "), b(""));
    assert_eq!(recortar(b""), b(""));
    assert_eq!(recortar(b"\x0b\x0cx\x0b"), b("x"));
}

#[test]
fn prefijos_e_igualdad() {
    assert!(empieza(b"DIMENSION : 5", b"DIMENSION :"));
    assert!(empieza(b"abc", b""));
    assert!(empieza(b"abc", b"abc"));
    assert!(!empieza(b"ab", b"abc"));
    assert!(!empieza(b"xbc", b"abc"));
    assert!(!empieza(b"DIMENSION: 5", b"DIMENSION :"));
    assert!(iguales(b"EOF", b"EOF"));
    assert!(iguales(b"", b""));
    assert!(!iguales(b"EOF ", b"EOF"));
    assert!(!iguales(b"EO", b"EOF"));
    assert!(!iguales(b"EOG", b"EOF"));
}

#[test]
fn busqueda_de_la_primera_aparicion() {
    assert_eq!(buscar(b"a, b, c", b","), Some(1));
    assert_eq!(buscar(b"xxabxxab", b"ab"), Some(2));
    assert_eq!(buscar(b"abc", b"abc"), Some(0));
    assert_eq!(buscar(b"abc", b"c"), Some(2));
    assert_eq!(buscar(b"abc", b"d"), None);
    assert_eq!(buscar(b"ab", b"abc"), None);
    assert_eq!(buscar(b"aab", b"ab"), Some(1));
    assert_eq!(buscar(b"abc", b""), Some(0));
    assert_eq!(buscar(b"", b""), Some(0));
    assert_eq!(buscar(b"", b"a"), None);
}

#[test]
fn campos_entre_blancos() {
    assert_eq!(partir_campos(b" 1  20\t300 "), vec![b("1"), b("20"), b("300")]);
    assert_eq!(partir_campos(b"uno"), vec![b("uno")]);
    assert_eq!(partir_campos(b"a b"), vec![b("a"), b("b")]);
    assert!(partir_campos(b"   ").is_empty());
    assert!(partir_campos(b"").is_empty());
}

#[test]
fn lineas_entre_saltos() {
    assert_eq!(partir_lineas(b"a\nbc\n\nd"), vec![b("a"), b("bc"), b(""), b("d")]);
    assert_eq!(partir_lineas(b"a\n"), vec![b("a"), b("")]);
    assert_eq!(partir_lineas(b"a\r\nb"), vec![b("a\r"), b("b")]);
    assert_eq!(partir_lineas(b""), vec![b("")]);
    assert_eq!(partir_lineas(b"\n"), vec![b(""), b("")]);
}

#[test]
fn lectura_de_una_instancia() {
    let datos = leer_matriz(INSTANCIA.as_bytes()).unwrap();
    assert_eq!(datos.dimension, 5);
    assert_eq!(datos.capacidad, 10);
    assert_eq!(datos.n_vehiculos, 2);
    assert_eq!(datos.deposito_id, 1);
    assert_eq!(datos.nodos.len(), 5);
    let nodos: Vec<(u32, u32, u32)> = datos.nodos.iter().map(|n| (n.id, n.x, n.y)).collect();
    assert_eq!(nodos, vec![(1, 0, 0), (2, 0, 30), (3, 40, 30), (4, 40, 0), (5, 20, 45)]);
    let demandas: Vec<(u32, u32)> = datos.clientes.iter().map(|c| (c.id, c.demanda)).collect();
    assert_eq!(demandas, vec![(1, 0), (2, 3), (3, 4), (4, 5), (5, 6)]);
    assert_eq!(validar_datos(&datos), Ok(()));
}

#[test]
fn lectura_con_fin_de_linea_de_dos_bytes_y_sin_final() {
    let texto = INSTANCIA.replace("\n", "\r\n").replace("EOF\r\n", "");
    let datos = leer_matriz(texto.as_bytes()).unwrap();
    assert_eq!(datos.dimension, 5);
    assert_eq!(datos.nodos.len(), 5);
    assert_eq!(datos.clientes.len(), 5);
    assert_eq!(datos.deposito_id, 1);
}

#[test]
fn lectura_de_un_texto_vacio() {
    let datos = leer_matriz(b"").unwrap();
    assert_eq!(datos.dimension, 0);
    assert_eq!(datos.capacidad, 0);
    assert_eq!(datos.n_vehiculos, 0);
    assert_eq!(datos.deposito_id, 0);
    assert!(datos.nodos.is_empty());
    assert!(datos.clientes.is_empty());
}

#[test]
fn flota_en_el_comentario() {
    let lee = |comentario: &str| {
        leer_matriz(format!("{}\nDIMENSION : 1\n", comentario).as_bytes()).unwrap().n_vehiculos
    };
    assert_eq!(lee("COMMENT : (Augerat et al, No of trucks: 5, Optimal value: 784)"), 5);
    assert_eq!(lee("COMMENT : No of trucks: 12"), 12);
    assert_eq!(lee("COMMENT : No of trucks:7  "), 7);
    assert_eq!(lee("COMMENT :No of trucks:  3 , x"), 3);
    assert_eq!(lee("  COMMENT : No of trucks: 4, No of trucks: 9"), 4);
    // not a number before the comma, or no fleet at all: the fleet stays at 0
    assert_eq!(lee("COMMENT : (No of trucks: 5)"), 0);
    assert_eq!(lee("COMMENT : No of trucks: five, 6"), 0);
    assert_eq!(lee("COMMENT : (Augerat et al, Optimal value: 784)"), 0);
    assert_eq!(lee("COMMENT: No of trucks: 5"), 0);
    assert_eq!(lee("No of trucks: 5"), 0);
}

#[test]
fn la_ultima_mencion_gana() {
    let texto = "COMMENT : No of trucks: 5\nCOMMENT : No of trucks: 8\nDIMENSION : 3\nDIMENSION : 4\nCAPACITY : 7\nCAPACITY : 9\nDEPOT_SECTION\n2\n3\n";
    let datos = leer_matriz(texto.as_bytes()).unwrap();
    assert_eq!(datos.n_vehiculos, 8);
    assert_eq!(datos.dimension, 4);
    assert_eq!(datos.capacidad, 9);
    assert_eq!(datos.deposito_id, 3);
}

#[test]
fn dimension_ilegible() {
    for texto in [
        "DIMENSION : cinco\n",
        "DIMENSION :\n",
        "DIMENSION : 5 nodes\n",
        "DIMENSION : -5\n",
        "DIMENSION : 4294967296\n",
    ] {
        assert_eq!(
            leer_matriz(texto.as_bytes()).err(),
            Some(ErrorLectura::DimensionIlegible),
            "{}",
            texto
        );
    }
    assert_eq!(leer_matriz(b"DIMENSION :   5  \n").unwrap().dimension, 5);
    assert_eq!(leer_matriz(b"DIMENSION :5\n").unwrap().dimension, 5);
    // without the space before the colon the line is not a dimension
    assert_eq!(leer_matriz(b"DIMENSION: 5\n").unwrap().dimension, 0);
}

#[test]
fn capacidad_ilegible() {
    for texto in ["CAPACITY : mucha\n", "CAPACITY :\n", "CAPACITY : 1e3\n"] {
        assert_eq!(
            leer_matriz(texto.as_bytes()).err(),
            Some(ErrorLectura::CapacidadIlegible),
            "{}",
            texto
        );
    }
    assert_eq!(leer_matriz(b"CAPACITY : 100\n").unwrap().capacidad, 100);
}

#[test]
fn nodo_ilegible() {
    assert_eq!(
        leer_matriz(b"NODE_COORD_SECTION\n1 2 3\n2 x 3\n").err(),
        Some(ErrorLectura::NodoIlegible)
    );
    assert_eq!(
        leer_matriz(b"NODE_COORD_SECTION\n1 2.5 3\n").err(),
        Some(ErrorLectura::NodoIlegible)
    );
    // a keyword that is no section name is data of the section it stands in
    assert_eq!(
        leer_matriz(b"NODE_COORD_SECTION\nDIMENSION : 5\n").err(),
        Some(ErrorLectura::NodoIlegible)
    );
    assert_eq!(
        leer_matriz(b"NODE_COORD_SECTION\nCOMMENT : No of trucks: 5\n").err(),
        Some(ErrorLectura::NodoIlegible)
    );
}

#[test]
fn demanda_ilegible() {
    assert_eq!(
        leer_matriz(b"DEMAND_SECTION\n1 0\n2 -3\n").err(),
        Some(ErrorLectura::DemandaIlegible)
    );
    assert_eq!(
        leer_matriz(b"DEMAND_SECTION\nTYPE : CVRP\n").err(),
        Some(ErrorLectura::DemandaIlegible)
    );
}

#[test]
fn deposito_ilegible() {
    assert_eq!(leer_matriz(b"DEPOT_SECTION\n1 2\n").err(), Some(ErrorLectura::DepositoIlegible));
    assert_eq!(leer_matriz(b"DEPOT_SECTION\n-2\n").err(), Some(ErrorLectura::DepositoIlegible));
    assert_eq!(leer_matriz(b"DEPOT_SECTION\nuno\n").err(), Some(ErrorLectura::DepositoIlegible));
    assert_eq!(leer_matriz(b"DEPOT_SECTION\n  7  \n-1\nEOF\n\n").unwrap().deposito_id, 7);
}

#[test]
fn se_informa_la_primera_linea_ilegible() {
    let texto = "CAPACITY : x\nDIMENSION : y\n";
    assert_eq!(leer_matriz(texto.as_bytes()).err(), Some(ErrorLectura::CapacidadIlegible));
    let texto = "DEMAND_SECTION\n1 a\nNODE_COORD_SECTION\n1 b 2\n";
    assert_eq!(leer_matriz(texto.as_bytes()).err(), Some(ErrorLectura::DemandaIlegible));
}

#[test]
fn filas_con_otra_cantidad_de_numeros_se_pasan_por_alto() {
    let texto = "NODE_COORD_SECTION\n1 2\n1 2 3 4\n7 8 9\n\nDEMAND_SECTION\n1\n1 2 3\n4 5\n";
    let datos = leer_matriz(texto.as_bytes()).unwrap();
    assert_eq!(datos.nodos.len(), 1);
    assert_eq!((datos.nodos[0].id, datos.nodos[0].x, datos.nodos[0].y), (7, 8, 9));
    assert_eq!(datos.clientes.len(), 1);
    assert_eq!((datos.clientes[0].id, datos.clientes[0].demanda), (4, 5));
}

#[test]
fn datos_fuera_de_seccion_se_pasan_por_alto() {
    let texto = "1 2 3\nhola\n4 5\nNODE_COORD_SECTION_X\n1 1 1\n";
    let datos = leer_matriz(texto.as_bytes()).unwrap();
    // the section name is recognised by its start
    assert_eq!(datos.nodos.len(), 1);
    assert!(datos.clientes.is_empty());
}

#[test]
fn lectura_que_la_validacion_rechaza() {
    let texto = INSTANCIA.replace("DIMENSION : 5", "DIMENSION : 6");
    let datos = leer_matriz(texto.as_bytes()).unwrap();
    assert!(validar_datos(&datos).is_err());
}

#[test]
fn valor_optimo_conocido() {
    assert_eq!(leer_valor_optimo(b"Route #1: 1 2 3\nRoute #2: 4 5\nCost 784\n"), Some(784));
    assert_eq!(leer_valor_optimo(b"  Cost   150  \r\n"), Some(150));
    assert_eq!(leer_valor_optimo(b"Cost x\nCost 12\nCost 13\n"), Some(12));
    assert_eq!(leer_valor_optimo(b"Cost 0"), Some(0));
    assert_eq!(leer_valor_optimo(b"Route #1: 1 2 3\n"), None);
    assert_eq!(leer_valor_optimo(b"Cost\n"), None);
    assert_eq!(leer_valor_optimo(b"Cost784\n"), None);
    assert_eq!(leer_valor_optimo(b"cost 784\n"), None);
    assert_eq!(leer_valor_optimo(b"Cost 78.4\n"), None);
    assert_eq!(leer_valor_optimo(b""), None);
}

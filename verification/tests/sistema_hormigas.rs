use metaheuristicas::sistema_hormigas::{
    evaluacion_caminos, evaluar_camino, get_conjunto_aristas_from_distancia, get_inicio,
    inicializacion_hormigas, leer_matriz, ErrorMatriz, Hormiga, MatrizFromFile,
};
use rand::rngs::StdRng;
use rand::SeedableRng;

fn matriz() -> Vec<Vec<u32>> {
    vec![vec![0, 2, 9, 10], vec![1, 0, 6, 4], vec![15, 7, 0, 8], vec![6, 3, 12, 0]]
}

#[test]
fn largo_del_ciclo_de_un_camino() {
    // 2 + 6 + 8, and 6 back to the start
    assert_eq!(evaluar_camino(&vec![0, 1, 2, 3], &matriz()), 22);
    // 10 + 12 + 7, and 1 back
    assert_eq!(evaluar_camino(&vec![0, 3, 2, 1], &matriz()), 30);
    // a single node: from it to itself
    assert_eq!(evaluar_camino(&vec![2], &matriz()), 0);
    // 9 there and 15 back
    assert_eq!(evaluar_camino(&vec![0, 2], &matriz()), 24);
}

#[test]
fn largo_del_ciclo_que_no_cabe() {
    let grande = vec![vec![0, u32::MAX], vec![7, 0]];
    assert_eq!(evaluar_camino(&vec![0, 1], &grande), u32::MAX);
    let justo = vec![vec![0, u32::MAX - 8], vec![7, 0]];
    assert_eq!(evaluar_camino(&vec![0, 1], &justo), u32::MAX - 1);
    let tope = vec![vec![0, u32::MAX - 7], vec![7, 0]];
    assert_eq!(evaluar_camino(&vec![0, 1], &tope), u32::MAX);
}

#[test]
fn evaluacion_de_todas_las_hormigas() {
    let hormigas = vec![
        Hormiga { camino: vec![0, 1, 2, 3] },
        Hormiga { camino: vec![0, 3, 2, 1] },
        Hormiga { camino: vec![3] },
    ];
    assert_eq!(evaluacion_caminos(&hormigas, 3, &matriz()), vec![22, 30, 0]);
    assert!(evaluacion_caminos(&vec![], 0, &matriz()).is_empty());
}

#[test]
fn hormigas_en_el_inicio() {
    let hormigas = inicializacion_hormigas(4, 2);
    assert_eq!(hormigas.len(), 4);
    for h in &hormigas {
        assert_eq!(h.camino, vec![2]);
    }
    assert!(inicializacion_hormigas(0, 2).is_empty());
    assert_eq!(Hormiga::new(9).camino, vec![9]);
}

#[test]
fn inicio_sorteado_entre_los_nodos() {
    let mut rng = StdRng::seed_from_u64(17);
    let mut vistos = [false; 5];
    for _ in 0..200 {
        let inicio = get_inicio(&5, &mut rng);
        assert!(inicio < 5);
        vistos[inicio as usize] = true;
    }
    assert!(vistos.iter().all(|v| *v));
    for _ in 0..20 {
        assert_eq!(get_inicio(&1, &mut rng), 0);
    }
}

#[test]
fn vecinos_en_el_grafo_completo() {
    let archivo = MatrizFromFile::new(matriz(), 4);
    let aristas = get_conjunto_aristas_from_distancia(&archivo);
    assert_eq!(aristas, vec![vec![1, 2, 3], vec![0, 2, 3], vec![0, 1, 3], vec![0, 1, 2]]);
    let uno = MatrizFromFile::new(vec![vec![0]], 1);
    assert_eq!(get_conjunto_aristas_from_distancia(&uno), vec![Vec::<u32>::new()]);
    let nada = MatrizFromFile::new(vec![], 0);
    assert!(get_conjunto_aristas_from_distancia(&nada).is_empty());
}

#[test]
fn lectura_de_una_matriz() {
    let texto = "NAME: cuatro\nTYPE: TSP\nDIMENSION: 4\nEDGE_WEIGHT_SECTION\n0 2 9 10\n1 0 6 4\n15 7 0 8\n6 3 12 0\nEOF\n";
    let archivo = leer_matriz(texto.as_bytes()).unwrap();
    assert_eq!(archivo.dimension, 4);
    assert_eq!(archivo.matriz, matriz());
}

#[test]
fn lectura_de_una_matriz_con_otro_corte_de_lineas() {
    let texto = "DIMENSION:3\n  EDGE_WEIGHT_SECTION  \n0 1\n2 3 0 4 5\n\n6 0\n EOF \nesto ya no se lee: x y z\nDIMENSION: nada\n";
    let archivo = leer_matriz(texto.as_bytes()).unwrap();
    assert_eq!(archivo.dimension, 3);
    assert_eq!(archivo.matriz, vec![vec![0, 1, 2], vec![3, 0, 4], vec![5, 6, 0]]);
    // the end mark is not needed
    let archivo = leer_matriz(b"DIMENSION: 1\nEDGE_WEIGHT_SECTION\n7").unwrap();
    assert_eq!(archivo.matriz, vec![vec![7]]);
    // the dimension may come after the matrix has begun
    let archivo = leer_matriz(b"EDGE_WEIGHT_SECTION\n1 2\nDIMENSION: 2\n3 4\n").unwrap();
    assert_eq!(archivo.matriz, vec![vec![1, 2], vec![3, 4]]);
}

#[test]
fn matriz_con_dimension_ilegible() {
    assert_eq!(leer_matriz(b"DIMENSION: tres\n").err(), Some(ErrorMatriz::DimensionIlegible));
    assert_eq!(leer_matriz(b"DIMENSION:\n").err(), Some(ErrorMatriz::DimensionIlegible));
    assert_eq!(leer_matriz(b"DIMENSION: 3 3\n").err(), Some(ErrorMatriz::DimensionIlegible));
}

#[test]
fn matriz_con_valor_ilegible() {
    let texto = "DIMENSION: 2\nEDGE_WEIGHT_SECTION\n0 1\n1 x\nEOF\n";
    assert_eq!(leer_matriz(texto.as_bytes()).err(), Some(ErrorMatriz::ValorIlegible));
    let texto = "DIMENSION: 2\nEDGE_WEIGHT_SECTION\n0 -1\n1 0\nEOF\n";
    assert_eq!(leer_matriz(texto.as_bytes()).err(), Some(ErrorMatriz::ValorIlegible));
    // before the matrix begins nothing is read as a value
    let texto = "x y z\nDIMENSION: 1\nEDGE_WEIGHT_SECTION\n5\n";
    assert!(leer_matriz(texto.as_bytes()).is_ok());
}

#[test]
fn matriz_sin_dimension() {
    assert_eq!(leer_matriz(b"").err(), Some(ErrorMatriz::SinDimension));
    assert_eq!(leer_matriz(b"EDGE_WEIGHT_SECTION\n1 2 3 4\nEOF\n").err(), Some(ErrorMatriz::SinDimension));
    assert_eq!(leer_matriz(b"DIMENSION: 0\nEDGE_WEIGHT_SECTION\nEOF\n").err(), Some(ErrorMatriz::SinDimension));
    // the key is read at the very start of the line only
    assert_eq!(leer_matriz(b" DIMENSION: 2\n").err(), Some(ErrorMatriz::SinDimension));
}

#[test]
fn matriz_con_otra_cantidad_de_valores() {
    let distinta = |esperados: u64, hallados: u64| {
        Some(ErrorMatriz::CantidadDistinta { esperados, hallados })
    };
    let texto = "DIMENSION: 2\nEDGE_WEIGHT_SECTION\n0 1\n1\nEOF\n";
    assert_eq!(leer_matriz(texto.as_bytes()).err(), distinta(4, 3));
    let texto = "DIMENSION: 2\nEDGE_WEIGHT_SECTION\n0 1\n1 0 5\nEOF\n";
    assert_eq!(leer_matriz(texto.as_bytes()).err(), distinta(4, 5));
    assert_eq!(leer_matriz(b"DIMENSION: 2\n").err(), distinta(4, 0));
    assert_eq!(
        leer_matriz(b"DIMENSION: 4294967295\n").err(),
        distinta(18_446_744_065_119_617_025, 0)
    );
}

use metaheuristicas::rutas_vehiculares::{
    actualizar_mejor, algoritmo_inicializacion, calcular_conjunto_distancias, copiar_rutas,
    create_conjunto_aristas, evaluar_hormiga, iteracion, registrar_colonia, Cliente, Colonia,
    DatosVRP, ErrorDatos, EvaluacionSolucion, Hormiga, Nodo, Solucion, COSTO_CENTINELA,
    FEROMONA_MILESIMA, FEROMONA_MINIMA, FEROMONA_UNIDAD,
};
use metaheuristicas::tablas::{es_tabla_cuadrada, poner, tabla_uniforme};
use rand::rngs::StdRng;
use rand::SeedableRng;

fn cinco_nodos(capacidad: u32, n_vehiculos: u32) -> DatosVRP {
    DatosVRP {
        nodos: vec![
            Nodo::new(1, 0, 0),
            Nodo::new(2, 0, 30),
            Nodo::new(3, 40, 30),
            Nodo::new(4, 40, 0),
            Nodo::new(5, 20, 45),
        ],
        dimension: 5,
        capacidad,
        deposito_id: 1,
        clientes: vec![
            Cliente { id: 1, demanda: 0 },
            Cliente { id: 2, demanda: 3 },
            Cliente { id: 3, demanda: 4 },
            Cliente { id: 4, demanda: 5 },
            Cliente { id: 5, demanda: 6 },
        ],
        n_vehiculos,
    }
}

fn pesos_de(cf: &Vec<Vec<u64>>, cd: &Vec<Vec<u64>>, alfa: f64, beta: f64) -> Vec<Vec<u32>> {
    let n = cf.len();
    let mut crudos = vec![vec![0.0f64; n]; n];
    let mut mayor = 0.0f64;
    for i in 0..n {
        for j in 0..n {
            if i != j && cd[i][j] > 0 {
                let tau = cf[i][j] as f64 / FEROMONA_UNIDAD as f64;
                crudos[i][j] = tau.powf(alfa) * (1.0 / cd[i][j] as f64).powf(beta);
                mayor = mayor.max(crudos[i][j]);
            }
        }
    }
    crudos
        .iter()
        .map(|fila| fila.iter().map(|w| (w / mayor * 1073741824.0) as u32).collect())
        .collect()
}

fn costo_de(orden: &[usize], cd: &Vec<Vec<u64>>) -> u64 {
    let mut costo = cd[0][orden[0]] + cd[orden[orden.len() - 1]][0];
    for k in 1..orden.len() {
        costo += cd[orden[k - 1]][orden[k]];
    }
    costo
}

fn optimo_por_fuerza_bruta(cd: &Vec<Vec<u64>>) -> u64 {
    let mut mejor = u64::MAX;
    for a in 1..5 {
        for b in 1..5 {
            for c in 1..5 {
                for d in 1..5 {
                    if a != b && a != c && a != d && b != c && b != d && c != d {
                        mejor = mejor.min(costo_de(&[a, b, c, d], cd));
                    }
                }
            }
        }
    }
    mejor
}

fn evaluacion(costo_total: u32, vehiculos_usados: u32, es_factible: bool) -> EvaluacionSolucion {
    EvaluacionSolucion { costo_total, vehiculos_usados, es_factible }
}

#[test]
fn la_colonia_encuentra_el_recorrido_optimo_de_cinco_nodos() {
    let datos = cinco_nodos(100, 1);
    let cd = calcular_conjunto_distancias(&datos);
    let ca = create_conjunto_aristas(5);
    let optimo = optimo_por_fuerza_bruta(&cd);
    // 30 + 25 + 25 + 30 + 40 around the hull
    assert_eq!(optimo, 150);
    let mut rng = StdRng::seed_from_u64(12345);
    let mut cf = algoritmo_inicializacion(&ca, &mut rng);
    let mut mejor = Solucion::new(6);
    assert!(!mejor.hay_solucion());
    for _ in 0..60 {
        let pesos = pesos_de(&cf, &cd, 1.0, 2.0);
        let h = iteracion(
            6, &ca, &pesos, &cd, &mut cf, &mut mejor, datos.capacidad, datos.n_vehiculos,
            &datos.clientes, datos.deposito_id, FEROMONA_UNIDAD / 10, &mut rng,
        );
        assert_eq!(h.len(), 6);
    }
    assert!(mejor.hay_solucion());
    assert_eq!(mejor.costo_total as u64, optimo);
    assert_eq!(mejor.vehiculos_usados, 1);
    assert_eq!(mejor.rutas.len(), 1);
    let ruta = &mejor.rutas[0];
    assert_eq!(ruta.len(), 6);
    let orden: Vec<usize> = ruta[1..5].iter().map(|v| *v as usize - 1).collect();
    assert_eq!(costo_de(&orden, &cd), optimo);
    for i in 0..5 {
        assert_eq!(cf[i][i], 0);
        for j in 0..5 {
            assert_eq!(cf[i][j], cf[j][i]);
            if i != j {
                assert!(cf[i][j] >= FEROMONA_MINIMA);
            }
        }
    }
}

#[test]
fn sin_solucion_factible_el_costo_sigue_en_el_centinela() {
    // one vehicle of 17 for 18 units of demand
    let datos = cinco_nodos(17, 1);
    let cd = calcular_conjunto_distancias(&datos);
    let ca = create_conjunto_aristas(5);
    let mut rng = StdRng::seed_from_u64(5);
    let mut cf = algoritmo_inicializacion(&ca, &mut rng);
    let mut mejor = Solucion::new(4);
    for _ in 0..25 {
        let pesos = pesos_de(&cf, &cd, 1.0, 1.0);
        let antes = cf.clone();
        let h = iteracion(
            4, &ca, &pesos, &cd, &mut cf, &mut mejor, datos.capacidad, datos.n_vehiculos,
            &datos.clientes, datos.deposito_id, FEROMONA_UNIDAD / 2, &mut rng,
        );
        for hormiga in &h {
            assert!(hormiga.rutas.len() >= 2);
        }
        // nobody deposits: the field only evaporates
        for i in 0..5 {
            for j in 0..5 {
                if i != j {
                    assert_eq!(cf[i][j], (antes[i][j] / 2).max(FEROMONA_MINIMA));
                }
            }
        }
    }
    assert!(!mejor.hay_solucion());
    assert_eq!(mejor.costo_total, COSTO_CENTINELA);
    assert_eq!(mejor.vehiculos_usados, 0);
    assert_eq!(mejor.rutas, vec![Vec::<u32>::new(); 4]);
}

#[test]
fn registro_inicial() {
    let s = Solucion::new(3);
    assert_eq!(s.costo_total, COSTO_CENTINELA);
    assert_eq!(s.costo_total, u32::MAX);
    assert_eq!(s.vehiculos_usados, 0);
    assert_eq!(s.rutas, vec![Vec::<u32>::new(); 3]);
    assert!(!s.hay_solucion());
    assert!(Solucion::new(0).rutas.is_empty());
}

#[test]
fn el_mejor_solo_cambia_por_una_mejora_estricta_y_factible() {
    let h = vec![
        Hormiga { rutas: vec![vec![1, 2, 1]] },
        Hormiga { rutas: vec![vec![1, 3, 1]] },
        Hormiga { rutas: vec![vec![1, 4, 1]] },
        Hormiga { rutas: vec![vec![1, 5, 1], vec![1, 6, 1]] },
        Hormiga { rutas: vec![vec![1, 7, 1]] },
    ];
    let e = vec![
        evaluacion(90, 1, true),
        evaluacion(50, 1, false),
        evaluacion(70, 1, true),
        evaluacion(70, 2, true),
        evaluacion(80, 1, true),
    ];
    let mut mejor = Solucion::new(5);
    actualizar_mejor(&mut mejor, &h, &e);
    // the infeasible 50 is passed over; of the two 70s the first stays
    assert_eq!(mejor.costo_total, 70);
    assert_eq!(mejor.vehiculos_usados, 1);
    assert_eq!(mejor.rutas, vec![vec![1, 4, 1]]);
    // an equal cost does not replace it
    let h2 = vec![Hormiga { rutas: vec![vec![1, 8, 1]] }];
    actualizar_mejor(&mut mejor, &h2, &vec![evaluacion(70, 1, true)]);
    assert_eq!(mejor.rutas, vec![vec![1, 4, 1]]);
    actualizar_mejor(&mut mejor, &h2, &vec![evaluacion(71, 1, true)]);
    assert_eq!(mejor.costo_total, 70);
    actualizar_mejor(&mut mejor, &h2, &vec![evaluacion(69, 3, true)]);
    assert_eq!(mejor.costo_total, 69);
    assert_eq!(mejor.vehiculos_usados, 3);
    assert_eq!(mejor.rutas, vec![vec![1, 8, 1]]);
    actualizar_mejor(&mut mejor, &vec![], &vec![]);
    assert_eq!(mejor.costo_total, 69);
}

#[test]
fn un_costo_igual_al_centinela_no_se_registra() {
    let h = vec![Hormiga { rutas: vec![vec![1, 2, 1]] }];
    let mut mejor = Solucion::new(1);
    actualizar_mejor(&mut mejor, &h, &vec![evaluacion(u32::MAX, 1, true)]);
    assert!(!mejor.hay_solucion());
    assert_eq!(mejor.rutas, vec![Vec::<u32>::new()]);
}

#[test]
fn el_registro_evapora_antes_de_depositar() {
    let datos = cinco_nodos(100, 2);
    let cd = calcular_conjunto_distancias(&datos);
    let ca = create_conjunto_aristas(5);
    let mut cf = vec![vec![100_000_000u64; 5]; 5];
    for i in 0..5 {
        cf[i][i] = 0;
    }
    let h = vec![
        Hormiga { rutas: vec![vec![1, 2, 5, 3, 4, 1]] },
        Hormiga { rutas: vec![vec![1, 2, 3, 1]] },
    ];
    let mut mejor = Solucion::new(2);
    let e = registrar_colonia(
        &h, &ca, &cd, &mut cf, &mut mejor, 100, 2, &datos.clientes, 1, FEROMONA_UNIDAD / 4,
    );
    assert_eq!(e.len(), 2);
    assert!(e[0].es_factible);
    assert_eq!(e[0].costo_total, 150);
    assert!(!e[1].es_factible);
    assert_eq!(mejor.costo_total, 150);
    assert_eq!(mejor.rutas, vec![vec![1, 2, 5, 3, 4, 1]]);
    // 0.1 * 0.75 + 1 / 150
    let aporte = FEROMONA_UNIDAD / 150;
    assert_eq!(aporte, 6_666_666);
    assert_eq!(cf[0][1], 75_000_000 + aporte);
    assert_eq!(cf[1][4], 75_000_000 + aporte);
    assert_eq!(cf[4][2], 75_000_000 + aporte);
    assert_eq!(cf[2][3], 75_000_000 + aporte);
    assert_eq!(cf[3][0], 75_000_000 + aporte);
    // the infeasible ant ran along 2-3 and 3-1: nothing is left there
    assert_eq!(cf[1][2], 75_000_000);
    assert_eq!(cf[2][0], 75_000_000);
    assert_eq!(cf[0][0], 0);
}

#[test]
fn copia_de_rutas() {
    let rutas = vec![vec![1, 2, 3, 1], vec![], vec![1, 4, 1]];
    assert_eq!(copiar_rutas(&rutas), rutas);
    assert!(copiar_rutas(&vec![]).is_empty());
}

#[test]
fn colonia_nueva() {
    let mut rng = StdRng::seed_from_u64(3);
    let colonia = Colonia::new(cinco_nodos(100, 1), 4, &mut rng).unwrap();
    assert_eq!(colonia.datos.dimension, 5);
    assert_eq!(colonia.ca, create_conjunto_aristas(5));
    assert_eq!(colonia.cd, calcular_conjunto_distancias(&cinco_nodos(100, 1)));
    assert_eq!(colonia.mejor.costo_total, COSTO_CENTINELA);
    assert_eq!(colonia.mejor.rutas.len(), 4);
    assert_eq!(colonia.cf.len(), 5);
    for i in 0..5 {
        assert_eq!(colonia.cf[i][i], 0);
        for j in 0..5 {
            assert_eq!(colonia.cf[i][j], colonia.cf[j][i]);
            if i != j {
                assert!(colonia.cf[i][j] >= 10 * FEROMONA_MILESIMA);
                assert!(colonia.cf[i][j] <= 100 * FEROMONA_MILESIMA);
            }
        }
    }
}

#[test]
fn colonia_rechaza_una_instancia_con_faltas() {
    let mut rng = StdRng::seed_from_u64(3);
    let mut datos = cinco_nodos(100, 1);
    datos.dimension = 6;
    assert_eq!(Colonia::new(datos, 4, &mut rng).err(), Some(ErrorDatos::DimensionDistinta));
    // 6 units for a vehicle of 5
    let datos = cinco_nodos(5, 4);
    assert_eq!(Colonia::new(datos, 4, &mut rng).err(), Some(ErrorDatos::DemandaExcesiva));
}

#[test]
fn colonia_itera_y_conserva_el_campo() {
    let mut rng = StdRng::seed_from_u64(77);
    let mut colonia = Colonia::new(cinco_nodos(10, 2), 5, &mut rng).unwrap();
    assert!(!colonia.admite_pesos(&vec![vec![1; 4]; 5]));
    assert!(!colonia.admite_pesos(&vec![vec![1; 5]; 4]));
    for _ in 0..40 {
        let pesos = pesos_de(&colonia.cf, &colonia.cd, 1.0, 2.0);
        assert!(colonia.admite_pesos(&pesos));
        let h = colonia.iterar(5, &pesos, FEROMONA_UNIDAD / 5, &mut rng);
        assert_eq!(h.len(), 5);
        for hormiga in &h {
            // every customer once, within capacity
            let mut vistos: Vec<u32> = hormiga.rutas.iter().flatten().cloned().filter(|v| *v != 1).collect();
            vistos.sort();
            assert_eq!(vistos, vec![2, 3, 4, 5]);
            let e = evaluar_hormiga(&hormiga.rutas, &colonia.cd, 10, u32::MAX, &colonia.datos.clientes, 1);
            assert!(e.es_factible);
        }
        for i in 0..5 {
            assert_eq!(colonia.cf[i][i], 0);
            for j in 0..5 {
                assert_eq!(colonia.cf[i][j], colonia.cf[j][i]);
                if i != j {
                    assert!(colonia.cf[i][j] >= FEROMONA_MINIMA);
                }
            }
        }
    }
    // 18 units of demand in vehicles of 10: two routes at least, and two are allowed
    assert!(colonia.mejor.hay_solucion());
    assert_eq!(colonia.mejor.vehiculos_usados, 2);
    assert_eq!(colonia.mejor.rutas.len(), 2);
}

#[test]
fn flota_insuficiente_para_la_demanda_total() {
    // 18 units of demand, a fleet that holds 17 at most
    for (capacidad, n_vehiculos) in [(17u32, 1u32), (8, 2), (6, 2)] {
        let mut rng = StdRng::seed_from_u64(9);
        let mut colonia = Colonia::new(cinco_nodos(capacidad, n_vehiculos), 6, &mut rng).unwrap();
        for _ in 0..20 {
            let pesos = pesos_de(&colonia.cf, &colonia.cd, 1.0, 1.0);
            colonia.iterar(6, &pesos, FEROMONA_UNIDAD / 10, &mut rng);
        }
        assert!(!colonia.mejor.hay_solucion());
    }
}

#[test]
fn tablas_cuadradas() {
    let mut t = tabla_uniforme(3, 7u64);
    assert_eq!(t, vec![vec![7, 7, 7]; 3]);
    assert!(es_tabla_cuadrada(&t, 3));
    assert!(!es_tabla_cuadrada(&t, 2));
    poner(&mut t, 1, 2, 9);
    assert_eq!(t, vec![vec![7, 7, 7], vec![7, 7, 9], vec![7, 7, 7]]);
    t[2].push(0);
    assert!(!es_tabla_cuadrada(&t, 3));
    assert!(es_tabla_cuadrada(&tabla_uniforme(0, 1u32), 0));
}

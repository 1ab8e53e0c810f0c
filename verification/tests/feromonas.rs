use metaheuristicas::rutas_vehiculares::{
    actualizacion_feromona, algoritmo_inicializacion, create_conjunto_aristas,
    evapozacion_feromona, EvaluacionSolucion, Hormiga, FEROMONA_MILESIMA, FEROMONA_MINIMA,
    FEROMONA_UNIDAD,
};
use rand::rngs::StdRng;
use rand::SeedableRng;

fn campo(n: usize, valor: u64) -> Vec<Vec<u64>> {
    let mut cf = vec![vec![valor; n]; n];
    for i in 0..n {
        cf[i][i] = 0;
    }
    cf
}

fn evaluacion(costo_total: u32, es_factible: bool) -> EvaluacionSolucion {
    EvaluacionSolucion { costo_total, vehiculos_usados: 1, es_factible }
}

#[test]
fn campo_inicial_en_rango_y_simetrico() {
    let ca = create_conjunto_aristas(12);
    let mut rng = StdRng::seed_from_u64(7);
    let cf = algoritmo_inicializacion(&ca, &mut rng);
    assert_eq!(cf.len(), 12);
    for i in 0..12 {
        assert_eq!(cf[i].len(), 12);
        assert_eq!(cf[i][i], 0);
        for j in 0..12 {
            if i != j {
                assert!(cf[i][j] >= 10 * FEROMONA_MILESIMA);
                assert!(cf[i][j] <= 100 * FEROMONA_MILESIMA);
                assert_eq!(cf[i][j] % FEROMONA_MILESIMA, 0);
                assert_eq!(cf[i][j], cf[j][i]);
            }
        }
    }
}

#[test]
fn campo_inicial_no_es_constante() {
    let ca = create_conjunto_aristas(12);
    let mut rng = StdRng::seed_from_u64(11);
    let cf = algoritmo_inicializacion(&ca, &mut rng);
    let primero = cf[0][1];
    let mut distintos = false;
    for i in 0..12 {
        for j in 0..12 {
            if i != j && cf[i][j] != primero {
                distintos = true;
            }
        }
    }
    assert!(distintos);
}

#[test]
fn campo_inicial_solo_donde_hay_arista() {
    let mut ca = vec![vec![0u32; 3]; 3];
    ca[0][1] = 1;
    let mut rng = StdRng::seed_from_u64(3);
    let cf = algoritmo_inicializacion(&ca, &mut rng);
    assert!(cf[0][1] >= 10 * FEROMONA_MILESIMA);
    assert_eq!(cf[0][1], cf[1][0]);
    assert_eq!(cf[0][2], 0);
    assert_eq!(cf[2][0], 0);
    assert_eq!(cf[1][2], 0);
    assert_eq!(cf[2][1], 0);
}

#[test]
fn campo_inicial_sin_nodos() {
    let ca = create_conjunto_aristas(0);
    let mut rng = StdRng::seed_from_u64(3);
    assert!(algoritmo_inicializacion(&ca, &mut rng).is_empty());
}

#[test]
fn evaporacion_multiplica_por_uno_menos_rho() {
    let ca = create_conjunto_aristas(3);
    let mut cf = campo(3, 50_000_000);
    cf[0][1] = 80_000_000;
    // rho = 0.1
    evapozacion_feromona(&ca, &mut cf, FEROMONA_UNIDAD / 10);
    assert_eq!(cf[0][1], 72_000_000);
    assert_eq!(cf[1][0], 45_000_000);
    assert_eq!(cf[0][2], 45_000_000);
    assert_eq!(cf[0][0], 0);
    assert_eq!(cf[1][1], 0);
    assert_eq!(cf[2][2], 0);
}

#[test]
fn evaporacion_trunca_hacia_abajo() {
    let ca = create_conjunto_aristas(2);
    let mut cf = campo(2, 10_000_001);
    // rho = 0.5: 5_000_000.5
    evapozacion_feromona(&ca, &mut cf, FEROMONA_UNIDAD / 2);
    assert_eq!(cf[0][1], 5_000_000);
}

#[test]
fn evaporacion_no_baja_del_minimo() {
    let ca = create_conjunto_aristas(3);
    let mut cf = campo(3, 1_500_000);
    cf[0][1] = FEROMONA_MINIMA;
    cf[2][1] = 0;
    evapozacion_feromona(&ca, &mut cf, FEROMONA_UNIDAD / 2);
    for i in 0..3 {
        for j in 0..3 {
            if i != j {
                assert_eq!(cf[i][j], FEROMONA_MINIMA);
            } else {
                assert_eq!(cf[i][j], 0);
            }
        }
    }
}

#[test]
fn evaporacion_decrece_o_queda_en_el_minimo() {
    let ca = create_conjunto_aristas(6);
    let mut rng = StdRng::seed_from_u64(5);
    let mut cf = algoritmo_inicializacion(&ca, &mut rng);
    for vuelta in 0..40 {
        let antes = cf.clone();
        evapozacion_feromona(&ca, &mut cf, FEROMONA_UNIDAD / 4);
        for i in 0..6 {
            for j in 0..6 {
                if i != j {
                    assert!(cf[i][j] < antes[i][j] || cf[i][j] == FEROMONA_MINIMA, "{}", vuelta);
                    assert!(cf[i][j] >= FEROMONA_MINIMA);
                }
            }
        }
    }
    assert_eq!(cf[0][1], FEROMONA_MINIMA);
}

#[test]
fn evaporacion_con_tasas_extremas() {
    let ca = create_conjunto_aristas(2);
    let mut cf = campo(2, 40_000_000);
    evapozacion_feromona(&ca, &mut cf, 0);
    assert_eq!(cf[0][1], 40_000_000);
    evapozacion_feromona(&ca, &mut cf, FEROMONA_UNIDAD);
    assert_eq!(cf[0][1], FEROMONA_MINIMA);
    let mut cf = campo(2, u64::MAX);
    evapozacion_feromona(&ca, &mut cf, 3 * FEROMONA_UNIDAD);
    assert_eq!(cf[1][0], FEROMONA_MINIMA);
    let mut cf = campo(2, u64::MAX);
    evapozacion_feromona(&ca, &mut cf, 1);
    assert_eq!(cf[1][0], 18_446_744_055_262_807_541);
}

#[test]
fn deposito_suma_uno_sobre_el_costo_en_ambos_sentidos() {
    let mut cf = campo(4, 10_000_000);
    let h = vec![Hormiga { rutas: vec![vec![1, 2, 3, 1]] }];
    let e = vec![evaluacion(4, true)];
    actualizacion_feromona(&h, &mut cf, &e);
    let aporte = FEROMONA_UNIDAD / 4;
    assert_eq!(cf[0][1], 10_000_000 + aporte);
    assert_eq!(cf[1][0], 10_000_000 + aporte);
    assert_eq!(cf[1][2], 10_000_000 + aporte);
    assert_eq!(cf[2][1], 10_000_000 + aporte);
    assert_eq!(cf[2][0], 10_000_000 + aporte);
    assert_eq!(cf[0][2], 10_000_000 + aporte);
    assert_eq!(cf[0][3], 10_000_000);
    assert_eq!(cf[3][0], 10_000_000);
    assert_eq!(cf[1][3], 10_000_000);
    for i in 0..4 {
        assert_eq!(cf[i][i], 0);
    }
}

#[test]
fn deposito_trunca_el_aporte() {
    let mut cf = campo(2, 0);
    let h = vec![Hormiga { rutas: vec![vec![1, 2]] }];
    let e = vec![evaluacion(784, true)];
    actualizacion_feromona(&h, &mut cf, &e);
    // 1 / 784 = 0.001275510204...
    assert_eq!(cf[0][1], 1_275_510);
    assert_eq!(cf[1][0], 1_275_510);
}

#[test]
fn deposito_ignora_a_las_no_factibles() {
    let mut cf = campo(3, 10_000_000);
    let antes = cf.clone();
    let h = vec![Hormiga { rutas: vec![vec![1, 2, 3, 1]] }];
    let e = vec![evaluacion(u32::MAX, false)];
    actualizacion_feromona(&h, &mut cf, &e);
    assert_eq!(cf, antes);
}

#[test]
fn deposito_suma_todas_las_hormigas_y_rutas() {
    let mut cf = campo(4, 0);
    let h = vec![
        Hormiga { rutas: vec![vec![1, 2, 1], vec![1, 3, 1]] },
        Hormiga { rutas: vec![vec![1, 2, 3, 1]] },
        Hormiga { rutas: vec![vec![1, 4, 1]] },
    ];
    let e = vec![evaluacion(10, true), evaluacion(5, true), evaluacion(2, false)];
    actualizacion_feromona(&h, &mut cf, &e);
    let a = FEROMONA_UNIDAD / 10;
    let b = FEROMONA_UNIDAD / 5;
    // the first ant runs twice along 1-2 and twice along 1-3
    assert_eq!(cf[0][1], 2 * a + b);
    assert_eq!(cf[1][0], 2 * a + b);
    assert_eq!(cf[0][2], 2 * a + b);
    assert_eq!(cf[2][0], 2 * a + b);
    assert_eq!(cf[1][2], b);
    assert_eq!(cf[2][1], b);
    assert_eq!(cf[0][3], 0);
    assert_eq!(cf[3][0], 0);
}

#[test]
fn deposito_ignora_pasos_sin_arista() {
    let mut cf = campo(3, 7);
    let antes = cf.clone();
    let h = vec![Hormiga { rutas: vec![vec![1, 1], vec![0, 2], vec![2, 9], vec![3], vec![]] }];
    let e = vec![evaluacion(1, true)];
    actualizacion_feromona(&h, &mut cf, &e);
    assert_eq!(cf, antes);
}

#[test]
fn deposito_sin_evaluacion_no_aporta() {
    let mut cf = campo(3, 7);
    let h = vec![Hormiga { rutas: vec![vec![1, 2]] }, Hormiga { rutas: vec![vec![2, 3]] }];
    let e = vec![evaluacion(1000, true)];
    actualizacion_feromona(&h, &mut cf, &e);
    assert_eq!(cf[0][1], 7 + 1_000_000);
    assert_eq!(cf[1][2], 7);
}

#[test]
fn deposito_se_satura() {
    let mut cf = campo(2, u64::MAX - 5);
    let h = vec![Hormiga { rutas: vec![vec![1, 2]] }];
    let e = vec![evaluacion(1, true)];
    actualizacion_feromona(&h, &mut cf, &e);
    assert_eq!(cf[0][1], u64::MAX);
    assert_eq!(cf[1][0], u64::MAX);
    let mut cf = campo(2, 3);
    let e = vec![evaluacion(0, true)];
    actualizacion_feromona(&h, &mut cf, &e);
    assert_eq!(cf[0][1], u64::MAX);
    assert_eq!(cf[0][0], 0);
}

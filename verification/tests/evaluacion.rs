use metaheuristicas::rutas_vehiculares::{
    buscar_demanda, contiene, evaluacion_soluciones, evaluar_hormiga, Cliente, Hormiga,
    COSTO_CENTINELA,
};

// Five nodes on a line: node k at x = 10 (k - 1); the depot is node 1.
fn tabla_lineal() -> Vec<Vec<u64>> {
    let mut cd = vec![vec![0u64; 5]; 5];
    for i in 0..5 {
        for j in 0..5 {
            cd[i][j] = 10 * (if i > j { i - j } else { j - i }) as u64;
        }
    }
    cd
}

fn clientes_lineales() -> Vec<Cliente> {
    vec![
        Cliente { id: 1, demanda: 0 },
        Cliente { id: 2, demanda: 3 },
        Cliente { id: 3, demanda: 4 },
        Cliente { id: 4, demanda: 5 },
        Cliente { id: 5, demanda: 6 },
    ]
}

#[test]
fn evaluacion_de_una_ruta_factible() {
    let e = evaluar_hormiga(&vec![vec![1, 2, 3, 4, 5, 1]], &tabla_lineal(), 18, 1, &clientes_lineales(), 1);
    assert!(e.es_factible);
    assert_eq!(e.costo_total, 80);
    assert_eq!(e.vehiculos_usados, 1);
}

#[test]
fn evaluacion_suma_todas_las_rutas() {
    let rutas = vec![vec![1, 3, 2, 1], vec![1, 5, 4, 1]];
    let e = evaluar_hormiga(&rutas, &tabla_lineal(), 11, 2, &clientes_lineales(), 1);
    assert!(e.es_factible);
    // 20 + 10 + 10, then 40 + 10 + 30
    assert_eq!(e.costo_total, 120);
    assert_eq!(e.vehiculos_usados, 2);
}

#[test]
fn evaluacion_con_flota_excedida() {
    let rutas = vec![vec![1, 3, 2, 1], vec![1, 5, 4, 1]];
    let e = evaluar_hormiga(&rutas, &tabla_lineal(), 11, 1, &clientes_lineales(), 1);
    assert!(!e.es_factible);
    assert_eq!(e.costo_total, COSTO_CENTINELA);
    assert_eq!(e.vehiculos_usados, 2);
}

#[test]
fn evaluacion_con_ruta_sobrecargada() {
    let rutas = vec![vec![1, 3, 2, 1], vec![1, 5, 4, 1]];
    let e = evaluar_hormiga(&rutas, &tabla_lineal(), 10, 2, &clientes_lineales(), 1);
    assert!(!e.es_factible);
    assert_eq!(e.costo_total, COSTO_CENTINELA);
    let e = evaluar_hormiga(&rutas, &tabla_lineal(), 11, 2, &clientes_lineales(), 1);
    assert!(e.es_factible);
}

#[test]
fn evaluacion_con_cliente_repetido() {
    let rutas = vec![vec![1, 2, 3, 1], vec![1, 3, 4, 5, 1]];
    let e = evaluar_hormiga(&rutas, &tabla_lineal(), 100, 5, &clientes_lineales(), 1);
    assert!(!e.es_factible);
    assert_eq!(e.costo_total, COSTO_CENTINELA);
}

#[test]
fn evaluacion_con_cliente_sin_visitar() {
    let rutas = vec![vec![1, 2, 3, 4, 1]];
    let e = evaluar_hormiga(&rutas, &tabla_lineal(), 100, 5, &clientes_lineales(), 1);
    assert!(!e.es_factible);
    assert_eq!(e.costo_total, COSTO_CENTINELA);
    assert_eq!(e.vehiculos_usados, 1);
}

#[test]
fn evaluacion_con_nodo_desconocido() {
    for extra in [0u32, 6, 77, u32::MAX] {
        let rutas = vec![vec![1, 2, 3, extra, 4, 5, 1]];
        let e = evaluar_hormiga(&rutas, &tabla_lineal(), 100, 5, &clientes_lineales(), 1);
        assert!(!e.es_factible);
        assert_eq!(e.costo_total, COSTO_CENTINELA);
    }
}

#[test]
fn evaluacion_sin_rutas() {
    let e = evaluar_hormiga(&vec![], &tabla_lineal(), 100, 5, &clientes_lineales(), 1);
    assert!(!e.es_factible);
    assert_eq!(e.vehiculos_usados, 0);
    let solo_deposito = vec![Cliente { id: 1, demanda: 0 }];
    let e = evaluar_hormiga(&vec![], &tabla_lineal(), 100, 5, &solo_deposito, 1);
    assert!(e.es_factible);
    assert_eq!(e.costo_total, 0);
    assert_eq!(e.vehiculos_usados, 0);
}

#[test]
fn evaluacion_admite_rutas_vacias_y_deposito_intermedio() {
    let rutas = vec![vec![], vec![1], vec![1, 1], vec![1, 2, 1, 3, 4, 5, 1]];
    // the last route carries 3 + 4 + 5 + 6, whatever it passes in between
    let e = evaluar_hormiga(&rutas, &tabla_lineal(), 17, 4, &clientes_lineales(), 1);
    assert!(!e.es_factible);
    let e = evaluar_hormiga(&rutas, &tabla_lineal(), 18, 4, &clientes_lineales(), 1);
    assert!(e.es_factible);
    // 10 + 10 + 20 + 10 + 10 + 40
    assert_eq!(e.costo_total, 100);
    assert_eq!(e.vehiculos_usados, 4);
}

#[test]
fn evaluacion_con_otro_deposito() {
    let rutas = vec![vec![3, 1, 2, 3], vec![3, 4, 5, 3]];
    let clientes = vec![
        Cliente { id: 1, demanda: 2 },
        Cliente { id: 2, demanda: 2 },
        Cliente { id: 3, demanda: 0 },
        Cliente { id: 4, demanda: 2 },
        Cliente { id: 5, demanda: 2 },
    ];
    let e = evaluar_hormiga(&rutas, &tabla_lineal(), 4, 2, &clientes, 3);
    assert!(e.es_factible);
    assert_eq!(e.costo_total, 80);
}

#[test]
fn evaluacion_satura_el_costo() {
    let mut cd = tabla_lineal();
    cd[0][1] = u64::MAX;
    let e = evaluar_hormiga(&vec![vec![1, 2, 3, 4, 5, 1]], &cd, 18, 1, &clientes_lineales(), 1);
    assert!(e.es_factible);
    assert_eq!(e.costo_total, u32::MAX);
    cd[0][1] = u32::MAX as u64 - 70;
    let e = evaluar_hormiga(&vec![vec![1, 2, 3, 4, 5, 1]], &cd, 18, 1, &clientes_lineales(), 1);
    assert_eq!(e.costo_total, u32::MAX);
    cd[0][1] = u32::MAX as u64 - 71;
    let e = evaluar_hormiga(&vec![vec![1, 2, 3, 4, 5, 1]], &cd, 18, 1, &clientes_lineales(), 1);
    assert_eq!(e.costo_total, u32::MAX - 1);
}

#[test]
fn evaluacion_de_la_colonia_conserva_el_orden() {
    let h = vec![
        Hormiga { rutas: vec![vec![1, 2, 3, 4, 5, 1]] },
        Hormiga { rutas: vec![vec![1, 2, 3, 1]] },
        Hormiga { rutas: vec![vec![1, 5, 3, 4, 2, 1]] },
        Hormiga { rutas: vec![vec![1, 2, 1], vec![1, 3, 4, 5, 1]] },
    ];
    let e = evaluacion_soluciones(&h, &tabla_lineal(), 18, 1, &clientes_lineales(), 1);
    assert_eq!(e.len(), 4);
    assert!(e[0].es_factible);
    assert_eq!(e[0].costo_total, 80);
    assert!(!e[1].es_factible);
    assert_eq!(e[1].costo_total, COSTO_CENTINELA);
    assert!(e[2].es_factible);
    // 40 + 20 + 10 + 20 + 10
    assert_eq!(e[2].costo_total, 100);
    assert!(!e[3].es_factible);
    assert_eq!(e[3].vehiculos_usados, 2);
    assert!(evaluacion_soluciones(&vec![], &tabla_lineal(), 18, 1, &clientes_lineales(), 1).is_empty());
}

#[test]
fn flota_de_uno_con_demanda_mayor_que_la_capacidad() {
    // total demand 18, capacity 17, one vehicle: nothing is feasible
    let clientes = clientes_lineales();
    let cd = tabla_lineal();
    let ids = [2u32, 3, 4, 5];
    let mut vistas = 0;
    for a in 0..4 {
        for b in 0..4 {
            for c in 0..4 {
                for d in 0..4 {
                    if a != b && a != c && a != d && b != c && b != d && c != d {
                        let una = vec![vec![1, ids[a], ids[b], ids[c], ids[d], 1]];
                        assert!(!evaluar_hormiga(&una, &cd, 17, 1, &clientes, 1).es_factible);
                        let dos = vec![vec![1, ids[a], ids[b], 1], vec![1, ids[c], ids[d], 1]];
                        assert!(!evaluar_hormiga(&dos, &cd, 17, 1, &clientes, 1).es_factible);
                        let corta = vec![vec![1, ids[a], ids[b], ids[c], 1]];
                        assert!(!evaluar_hormiga(&corta, &cd, 17, 1, &clientes, 1).es_factible);
                        vistas += 1;
                    }
                }
            }
        }
    }
    assert_eq!(vistas, 24);
}

#[test]
fn demanda_del_primer_registro() {
    let clientes = vec![
        Cliente { id: 4, demanda: 9 },
        Cliente { id: 2, demanda: 5 },
        Cliente { id: 4, demanda: 1 },
    ];
    assert_eq!(buscar_demanda(&clientes, 4), Some(9));
    assert_eq!(buscar_demanda(&clientes, 2), Some(5));
    assert_eq!(buscar_demanda(&clientes, 3), None);
    assert_eq!(buscar_demanda(&vec![], 1), None);
}

#[test]
fn contiene_busca_el_valor() {
    assert!(contiene(&vec![3, 1, 4], 4));
    assert!(contiene(&vec![3, 1, 4], 3));
    assert!(!contiene(&vec![3, 1, 4], 2));
    assert!(!contiene(&vec![], 0));
}

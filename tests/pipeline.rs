use estadisticas_resenas::argumentos::{parsear_argumentos, validar_argumentos};
use estadisticas_resenas::estadisticas::{fusionar_top, EstadisticasGlobales, MejorReview};
use estadisticas_resenas::estadisticas::ConteoIdioma;
use estadisticas_resenas::estadisticas_serializables::{
    convertir_top_games, convertir_top_languages, filtrar_top3, preparar_salida_final,
    InfoIdiomaSerializable, InfoJuegoSerializable, SalidaFinal, PADRON,
};
use estadisticas_resenas::procesadores::{
    acumular_en_lote, fusionar_parciales, procesar_chunk, Resena,
};
use estadisticas_resenas::ranking::menor_nombre;
use rayon::iter::{IntoParallelIterator, ParallelIterator};

fn resena(juego: &str, idioma: &str, texto: &str, votos: &str) -> Resena {
    Resena {
        nombre_juego: juego.to_string(),
        idioma: idioma.to_string(),
        texto: texto.to_string(),
        votos_utiles: votos.to_string(),
    }
}

fn mejor(texto: &str, votos: u32) -> MejorReview {
    MejorReview { texto: texto.to_string(), votos }
}

/// Processes the batches in parallel on `hilos` workers and merges the
/// partial statistics in batch order.
fn procesar_lotes(lotes: Vec<Vec<Resena>>, hilos: usize) -> EstadisticasGlobales {
    let pool = rayon::ThreadPoolBuilder::new().num_threads(hilos).build().unwrap();
    let parciales: Vec<EstadisticasGlobales> =
        pool.install(|| lotes.into_par_iter().map(procesar_chunk).collect());
    fusionar_parciales(&parciales)
}

fn en_lotes(filas: &[(&str, &str, &str, &str)], tamano: usize) -> Vec<Vec<Resena>> {
    let mut lotes = Vec::new();
    let mut lote = Vec::new();
    for (j, i, t, v) in filas {
        if let Some(lleno) = acumular_en_lote(&mut lote, resena(j, i, t, v), tamano) {
            lotes.push(lleno);
        }
    }
    if !lote.is_empty() {
        lotes.push(lote);
    }
    lotes
}

fn datos() -> Vec<(&'static str, &'static str, &'static str, &'static str)> {
    let juegos = ["Alpha", "Beta", "Gamma", "Delta", "Epsilon"];
    let idiomas = ["english", "spanish", "german", "french"];
    let mut filas = Vec::new();
    let textos = [
        "a", "b", "c", "d", "e", "f", "g", "h", "i", "j", "k", "l", "m", "n", "o", "p", "q",
    ];
    let votos = ["3", "7", "7", "0", "12", "x", "5", "12", "1", "9", "", "4", "+8", "7", "2"];
    let mut k = 0usize;
    for ronda in 0..9 {
        for (gi, g) in juegos.iter().enumerate() {
            if (ronda + gi) % 3 == 2 {
                continue;
            }
            let idioma = idiomas[(ronda * 7 + gi * 3) % idiomas.len()];
            filas.push((*g, idioma, textos[k % textos.len()], votos[k % votos.len()]));
            k += 1;
        }
    }
    filas
}

fn mismas_salidas(a: &SalidaFinal, b: &SalidaFinal) {
    assert_eq!(a.padron, b.padron);
    assert_eq!(a.top_games.len(), b.top_games.len());
    for (x, y) in a.top_games.iter().zip(&b.top_games) {
        assert_eq!(x.game, y.game);
        assert_eq!(x.review_count, y.review_count);
        assert_eq!(x.languages.len(), y.languages.len());
        for (p, q) in x.languages.iter().zip(&y.languages) {
            assert_eq!(p.language, q.language);
            assert_eq!(p.review_count, q.review_count);
            assert_eq!(p.top_review, q.top_review);
            assert_eq!(p.top_review_votes, q.top_review_votes);
        }
    }
    assert_eq!(a.top_languages.len(), b.top_languages.len());
    for (x, y) in a.top_languages.iter().zip(&b.top_languages) {
        assert_eq!(x.language, y.language);
        assert_eq!(x.review_count, y.review_count);
        assert_eq!(x.top_reviews.len(), y.top_reviews.len());
        for (p, q) in x.top_reviews.iter().zip(&y.top_reviews) {
            assert_eq!(p.review, q.review);
            assert_eq!(p.votes, q.votes);
        }
    }
}

#[test]
fn test_resultados_con_diferentes_hilos() {
    let filas = datos();
    let hilos_a_probar = vec![1, 4, 8, 16];
    let mut resultados = Vec::new();
    for &hilos in &hilos_a_probar {
        let global = procesar_lotes(en_lotes(&filas, hilos), hilos);
        resultados.push(preparar_salida_final(&global));
    }
    for resultado in resultados.iter().skip(1) {
        mismas_salidas(&resultados[0], resultado);
    }
    assert_eq!(resultados[0].top_games.len(), 3);
    assert_eq!(resultados[0].top_languages.len(), 3);
}

#[test]
fn test_repetibilidad_con_mismos_hilos() {
    let filas = datos();
    let hilos = 3;
    let mut resultados = Vec::new();
    for _i in 0..5 {
        let global = procesar_lotes(en_lotes(&filas, 7), hilos);
        resultados.push(preparar_salida_final(&global));
    }
    for resultado in resultados.iter().skip(1) {
        mismas_salidas(&resultados[0], resultado);
    }
}

#[test]
fn ejemplo_de_dos_archivos() {
    let archivo1 = vec![
        resena("EntityA", "en", "great", "5"),
        resena("EntityA", "en", "ok", "9"),
        resena("EntityB", "es", "bien", "1"),
    ];
    let archivo2 = vec![resena("EntityA", "en", "meh", "2"), resena("EntityB", "es", "excelente", "7")];
    let mut global = EstadisticasGlobales::new();
    procesar_chunk(archivo1).merge_into(&mut global);
    procesar_chunk(archivo2).merge_into(&mut global);
    let salida = preparar_salida_final(&global);
    assert_eq!(salida.padron, PADRON);
    assert_eq!(salida.top_games.len(), 2);
    let a = &salida.top_games[0];
    assert_eq!(a.game, "EntityA");
    assert_eq!(a.review_count, 3);
    assert_eq!(a.languages.len(), 1);
    assert_eq!(a.languages[0].language, "en");
    assert_eq!(a.languages[0].top_review, "ok");
    assert_eq!(a.languages[0].top_review_votes, 9);
    let b = &salida.top_games[1];
    assert_eq!(b.game, "EntityB");
    assert_eq!(b.review_count, 2);
    assert_eq!(b.languages[0].language, "es");
    assert_eq!(b.languages[0].top_review, "excelente");
    assert_eq!(b.languages[0].top_review_votes, 7);
    let en = &salida.top_languages[0];
    assert_eq!(en.language, "en");
    assert_eq!(en.review_count, 3);
    let top: Vec<(&str, u32)> = en.top_reviews.iter().map(|r| (r.review.as_str(), r.votes)).collect();
    assert_eq!(top, vec![("ok", 9), ("great", 5), ("meh", 2)]);
    let es = &salida.top_languages[1];
    assert_eq!(es.language, "es");
    assert_eq!(es.review_count, 2);
}

#[test]
fn peso_no_numerico_no_cuenta() {
    let lote = vec![
        resena("G", "en", "bueno", "3"),
        resena("G", "en", "roto", "muchos"),
        resena("G", "en", "negativo", "-1"),
        resena("G", "en", "enorme", "4294967296"),
        resena("G", "en", "vacio", ""),
        resena("G", "en", "signo", "+"),
        resena("G", "en", "con signo", "+4"),
    ];
    let stats = procesar_chunk(lote);
    assert_eq!(stats.juegos.len(), 1);
    assert_eq!(stats.juegos[0].cantidad_total, 2);
    assert_eq!(stats.juegos[0].por_idioma[0].cantidad, 2);
    assert_eq!(stats.juegos[0].por_idioma[0].mejor.texto, "con signo");
    assert_eq!(stats.juegos[0].por_idioma[0].mejor.votos, 4);
    assert_eq!(stats.por_idioma[0].cantidad_total, 2);
    let textos: Vec<&str> = stats.por_idioma[0].top_reviews.iter().map(|r| r.texto.as_str()).collect();
    assert_eq!(textos, vec!["con signo", "bueno"]);
}

#[test]
fn lote_vacio_da_estadisticas_vacias() {
    let stats = procesar_chunk(Vec::new());
    assert!(stats.juegos.is_empty());
    assert!(stats.por_idioma.is_empty());
    let salida = preparar_salida_final(&stats);
    assert!(salida.top_games.is_empty());
    assert!(salida.top_languages.is_empty());
}

#[test]
fn top_acotado_y_descendente() {
    let votos = ["4", "15", "8", "16", "23", "42", "1", "2", "3", "5", "6", "7", "9", "10", "11"];
    let lote: Vec<Resena> = votos.iter().map(|v| resena("G", "en", &format!("t{}", v), v)).collect();
    let mut global = EstadisticasGlobales::new();
    procesar_chunk(lote).merge_into(&mut global);
    let top = &global.por_idioma[0].top_reviews;
    assert_eq!(global.por_idioma[0].cantidad_total, 15);
    assert_eq!(top.len(), 10);
    let pesos: Vec<u32> = top.iter().map(|r| r.votos).collect();
    assert_eq!(pesos, vec![42, 23, 16, 15, 11, 10, 9, 8, 7, 6]);
}

#[test]
fn recorte_idempotente() {
    let a: Vec<MejorReview> = (0..12).map(|i| mejor(&format!("a{}", i), 30 - 2 * i)).collect();
    let b: Vec<MejorReview> = (0..12).map(|i| mejor(&format!("b{}", i), 40 - 3 * i)).collect();
    let una_vez = fusionar_top(&a, &b);
    let a10: Vec<MejorReview> = a.iter().take(10).map(|m| m.copiar()).collect();
    let b10: Vec<MejorReview> = b.iter().take(10).map(|m| m.copiar()).collect();
    let dos_veces = fusionar_top(&a10, &b10);
    let v1: Vec<(String, u32)> = una_vez.iter().map(|m| (m.texto.clone(), m.votos)).collect();
    let v2: Vec<(String, u32)> = dos_veces.iter().map(|m| (m.texto.clone(), m.votos)).collect();
    assert_eq!(v1, v2);
    assert_eq!(v1.len(), 10);
    assert_eq!(v1[0], ("b0".to_string(), 40));
    assert_eq!(v1[3], ("b3".to_string(), 31));
    assert_eq!(v1[4], ("a0".to_string(), 30));
    assert_eq!(v1[5], ("a1".to_string(), 28));
    assert_eq!(v1[6], ("b4".to_string(), 28));
    assert_eq!(v1[9], ("a3".to_string(), 24));
}

#[test]
fn empate_en_mejor_registro_queda_el_primero() {
    let lote1 = vec![resena("G", "en", "primero", "5"), resena("G", "en", "segundo", "5")];
    let lote2 = vec![resena("G", "en", "tercero", "5")];
    let mut global = EstadisticasGlobales::new();
    procesar_chunk(lote1).merge_into(&mut global);
    procesar_chunk(lote2).merge_into(&mut global);
    assert_eq!(global.juegos[0].por_idioma[0].mejor.texto, "primero");
    let textos: Vec<&str> = global.por_idioma[0].top_reviews.iter().map(|r| r.texto.as_str()).collect();
    assert_eq!(textos, vec!["primero", "segundo", "tercero"]);
}

#[test]
fn empates_de_cantidad_por_nombre() {
    let lote = vec![
        resena("Zeta", "fr", "z1", "1"),
        resena("Beta", "es", "b1", "1"),
        resena("Alfa", "en", "a1", "1"),
        resena("Alfa", "de", "a2", "2"),
        resena("Beta", "en", "b2", "3"),
        resena("Zeta", "de", "z2", "1"),
        resena("Mu", "it", "m1", "1"),
    ];
    let global = procesar_chunk(lote);
    let resumen = filtrar_top3(&global);
    let nombres: Vec<&str> = resumen.juegos.iter().map(|j| j.juego.as_str()).collect();
    assert_eq!(nombres, vec!["Alfa", "Beta", "Zeta"]);
    let idiomas_alfa: Vec<&str> = resumen.juegos[0].por_idioma.iter().map(|c| c.idioma.as_str()).collect();
    assert_eq!(idiomas_alfa, vec!["de", "en"]);
    let idiomas: Vec<(&str, usize)> =
        resumen.idiomas.iter().map(|c| (c.idioma.as_str(), c.cantidad_total)).collect();
    assert_eq!(idiomas, vec![("de", 2), ("en", 2), ("es", 1)]);
}

#[test]
fn suma_de_totales_y_por_idioma() {
    let filas = datos();
    let global = procesar_lotes(en_lotes(&filas, 5), 2);
    let validas = filas.iter().filter(|f| f.3.parse::<u32>().is_ok()).count();
    let suma_juegos: usize = global.juegos.iter().map(|j| j.cantidad_total).sum();
    let suma_idiomas: usize = global.por_idioma.iter().map(|c| c.cantidad_total).sum();
    assert_eq!(suma_juegos, validas);
    assert_eq!(suma_idiomas, validas);
    for j in &global.juegos {
        let s: usize = j.por_idioma.iter().map(|c| c.cantidad).sum();
        assert_eq!(s, j.cantidad_total);
    }
    for c in &global.por_idioma {
        let s: usize = global
            .juegos
            .iter()
            .flat_map(|j| j.por_idioma.iter())
            .filter(|e| e.idioma == c.idioma)
            .map(|e| e.cantidad)
            .sum();
        assert_eq!(s, c.cantidad_total);
    }
}

#[test]
fn lotes_se_entregan_al_llenarse() {
    let mut lote = Vec::new();
    assert!(acumular_en_lote(&mut lote, resena("G", "en", "a", "1"), 3).is_none());
    assert!(acumular_en_lote(&mut lote, resena("G", "en", "b", "1"), 3).is_none());
    let lleno = acumular_en_lote(&mut lote, resena("G", "en", "c", "1"), 3).unwrap();
    assert_eq!(lleno.len(), 3);
    assert_eq!(lleno[2].texto, "c");
    assert!(lote.is_empty());
}

#[test]
fn orden_de_nombres() {
    assert!(menor_nombre(&"abc".to_string(), &"abd".to_string()));
    assert!(menor_nombre(&"ab".to_string(), &"abc".to_string()));
    assert!(!menor_nombre(&"abc".to_string(), &"abc".to_string()));
    assert!(!menor_nombre(&"b".to_string(), &"abc".to_string()));
    assert!(menor_nombre(&"Zeta".to_string(), &"alfa".to_string()));
}

fn args(v: &[&str]) -> Vec<String> {
    v.iter().map(|s| s.to_string()).collect()
}

#[test]
fn argumentos_validos_y_extension() {
    let c = validar_argumentos(&args(&["prog", "datos", "4", "salida"]), 2).unwrap();
    assert_eq!(c.ruta_archivo, "datos");
    assert_eq!(c.cantidad_threads, 4);
    assert_eq!(c.nombre_archivo_salida, "salida.json");
    let c = validar_argumentos(&args(&["prog", "datos", "20", "res.json"]), 2).unwrap();
    assert_eq!(c.cantidad_threads, 20);
    assert_eq!(c.nombre_archivo_salida, "res.json");
    let c = validar_argumentos(&args(&["prog", "datos", "+1", "x.jso"]), 1).unwrap();
    assert_eq!(c.nombre_archivo_salida, "x.jso.json");
}

#[test]
fn argumentos_invalidos() {
    assert!(validar_argumentos(&args(&["prog", "datos", "4"]), 2).is_none());
    assert!(validar_argumentos(&args(&["prog", "datos", "4", "s", "extra"]), 2).is_none());
    assert!(validar_argumentos(&args(&["prog", "datos", "cuatro", "s"]), 2).is_none());
    assert!(validar_argumentos(&args(&["prog", "datos", "0", "s"]), 2).is_none());
    assert!(validar_argumentos(&args(&["prog", "datos", "21", "s"]), 2).is_none());
    assert!(validar_argumentos(&args(&["prog", "datos", "-3", "s"]), 2).is_none());
    assert!(parsear_argumentos(&args(&["prog", "datos", "0", "s"])).is_none());
    assert!(parsear_argumentos(&args(&["prog"])).is_none());
    let c = parsear_argumentos(&args(&["prog", "datos", "1", "s"])).unwrap();
    assert_eq!(c.cantidad_threads, 1);
    assert_eq!(c.nombre_archivo_salida, "s.json");
}

fn conteo(idioma: &str, cantidad: usize) -> ConteoIdioma {
    ConteoIdioma { idioma: idioma.to_string(), cantidad, mejor: mejor("t", 1) }
}

#[test]
fn conversion_ordena_juegos_e_idiomas() {
    let juegos = vec![
        InfoJuegoSerializable {
            juego: "Uno".to_string(),
            cantidad_total: 1,
            por_idioma: vec![conteo("es", 1)],
        },
        InfoJuegoSerializable {
            juego: "Dos".to_string(),
            cantidad_total: 2,
            por_idioma: vec![conteo("fr", 1), conteo("en", 1), conteo("de", 2)],
        },
        InfoJuegoSerializable {
            juego: "Alfa".to_string(),
            cantidad_total: 1,
            por_idioma: vec![],
        },
    ];
    let r = convertir_top_games(&juegos);
    let nombres: Vec<(&str, u32)> = r.iter().map(|g| (g.game.as_str(), g.review_count)).collect();
    assert_eq!(nombres, vec![("Dos", 2), ("Alfa", 1), ("Uno", 1)]);
    let idiomas: Vec<(&str, u32)> =
        r[0].languages.iter().map(|l| (l.language.as_str(), l.review_count)).collect();
    assert_eq!(idiomas, vec![("de", 2), ("en", 1), ("fr", 1)]);

    let categorias = vec![
        InfoIdiomaSerializable { idioma: "zz".to_string(), cantidad_total: 1, top_reviews: vec![] },
        InfoIdiomaSerializable {
            idioma: "yy".to_string(),
            cantidad_total: 2,
            top_reviews: vec![mejor("a", 3), mejor("b", 1)],
        },
        InfoIdiomaSerializable { idioma: "aa".to_string(), cantidad_total: 1, top_reviews: vec![] },
    ];
    let l = convertir_top_languages(&categorias);
    let orden: Vec<(&str, u32)> = l.iter().map(|c| (c.language.as_str(), c.review_count)).collect();
    assert_eq!(orden, vec![("yy", 2), ("aa", 1), ("zz", 1)]);
    let top: Vec<(&str, u32)> = l[0].top_reviews.iter().map(|r| (r.review.as_str(), r.votes)).collect();
    assert_eq!(top, vec![("a", 3), ("b", 1)]);
}

//! Validation of the run's arguments: input directory, worker count and
//! output file name.
use vstd::prelude::*;
use vstd::string::StringExecFns;
use crate::procesadores::valor_decimal;

verus! {

/// Arguments expected, the program name included.
pub const CANTIDAD_ARGUMENTOS_ESPERADA: usize = 4;

/// Workers allowed per logical CPU.
pub const MULTIPLICADOR_CANT_HILOS: usize = 10;

/// The run's settings.
pub struct Configuracion {
    pub ruta_archivo: String,
    pub cantidad_threads: usize,
    pub nombre_archivo_salida: String,
}

pub open spec fn extension_json() -> Seq<char> {
    seq!['.', 'j', 's', 'o', 'n']
}

/// `s` with the extension `.json` added unless it already ends with it.
pub open spec fn con_extension(s: Seq<char>) -> Seq<char> {
    let e = extension_json();
    if s.len() >= e.len() && s.subrange(s.len() - e.len(), s.len() as int) == e {
        s
    } else {
        s + e
    }
}

/// The worker count that `s` asks for, when it is a positive number no
/// larger than `MULTIPLICADOR_CANT_HILOS` workers per CPU.
pub open spec fn hilos_validos(s: Seq<char>, cpus: nat) -> Option<nat> {
    match valor_decimal(s, usize::MAX as nat) {
        Some(n) => if 0 < n && n <= cpus * MULTIPLICADOR_CANT_HILOS {
            Some(n)
        } else {
            None
        },
        None => None,
    }
}

/// Relies on `str::parse::<usize>`: it accepts exactly an optional `+`
/// followed by one or more ASCII digits whose value fits in a `usize`.
#[verifier::external_body]
fn parsear_usize(s: &str) -> (r: Option<usize>)
    ensures
        r matches Some(v) ==> valor_decimal(s@, usize::MAX as nat) == Some(v as nat),
        r is None ==> valor_decimal(s@, usize::MAX as nat) is None,
{
    s.parse::<usize>().ok()
}

/// Relies on `str::ends_with` with a string pattern: whether `suf` is a
/// suffix of `s`.
#[verifier::external_body]
fn termina_con(s: &str, suf: &str) -> (r: bool)
    ensures
        r == (s@.len() >= suf@.len() && s@.subrange(s@.len() - suf@.len(), s@.len() as int)
            == suf@),
{
    s.ends_with(suf)
}

/// Relies on `num_cpus::get`: the number of logical CPUs this process may use,
/// which its documentation says is always at least 1.
#[verifier::external_body]
fn cpus_logicos() -> (r: usize)
    ensures
        r >= 1,
{
    num_cpus::get()
}

/// The settings that `args` (program name, input directory, worker count,
/// output file name) give on a machine with `cpus` logical CPUs; `None` when
/// there are not exactly four arguments or the worker count is not a positive
/// number of at most ten per CPU.
pub fn validar_argumentos(args: &Vec<String>, cpus: usize) -> (r: Option<Configuracion>)
    ensures
        args.len() != CANTIDAD_ARGUMENTOS_ESPERADA ==> r is None,
        args.len() == CANTIDAD_ARGUMENTOS_ESPERADA ==> match hilos_validos(args@[2]@, cpus as nat) {
            Some(n) => r matches Some(c) && c.ruta_archivo@ == args@[1]@ && c.cantidad_threads
                == n && c.nombre_archivo_salida@ == con_extension(args@[3]@),
            None => r is None,
        },
{
    if args.len() != CANTIDAD_ARGUMENTOS_ESPERADA {
        return None;
    }
    let cantidad_threads = match parsear_usize(args[2].as_str()) {
        Some(n) => n,
        None => {
            return None;
        },
    };
    let maximo: u128 = (cpus as u128) * (MULTIPLICADOR_CANT_HILOS as u128);
    if cantidad_threads == 0 || (cantidad_threads as u128) > maximo {
        return None;
    }
    let extension = ".json";
    proof {
        reveal_strlit(".json");
        assert(extension@ =~= extension_json());
    }
    let mut nombre_archivo_salida = args[3].clone();
    if !termina_con(nombre_archivo_salida.as_str(), extension) {
        nombre_archivo_salida.append(extension);
    }
    Some(
        Configuracion {
            ruta_archivo: args[1].clone(),
            cantidad_threads,
            nombre_archivo_salida,
        },
    )
}

/// The settings that `args` give on this machine (see `validar_argumentos`).
/// A worker count from 1 to `MULTIPLICADOR_CANT_HILOS` is accepted on every
/// machine; a larger one depends on the CPU count.
pub fn parsear_argumentos(args: &Vec<String>) -> (r: Option<Configuracion>)
    ensures
        args.len() != CANTIDAD_ARGUMENTOS_ESPERADA ==> r is None,
        valor_decimal(args@[2]@, usize::MAX as nat) matches Some(n) && n == 0 ==> r is None,
        valor_decimal(args@[2]@, usize::MAX as nat) is None ==> r is None,
        args.len() == CANTIDAD_ARGUMENTOS_ESPERADA && (valor_decimal(args@[2]@, usize::MAX as nat) matches Some(
            n,
        ) && 1 <= n <= MULTIPLICADOR_CANT_HILOS) ==> r is Some,
        r matches Some(c) ==> c.cantidad_threads > 0 && c.ruta_archivo@ == args@[1]@
            && c.nombre_archivo_salida@ == con_extension(args@[3]@) && valor_decimal(
            args@[2]@,
            usize::MAX as nat,
        ) == Some(c.cantidad_threads as nat),
{
    let cpus = cpus_logicos();
    validar_argumentos(args, cpus)
}

} // verus!

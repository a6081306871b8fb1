//! The benchmarks of a single integer parameter scan.
use vstd::prelude::*;
use crate::command::Command;
use crate::commands::{Commands, benchmark_name};
use crate::parameter::{Number, ParameterScanError, ParameterValue, MAX_PARAMETERS, int_range, int_scan_fits, is_int_scan, lemma_int_scan_len};

verus! {

// ------------------------------------------------------------------------
// A single integer parameter scan

/// `c` is benchmark number `k` of the scan of parameter `param` over `vals`:
/// the command index varies fastest, then the value.
pub open spec fn is_scan_benchmark(
    c: Command,
    k: nat,
    param: Seq<char>,
    vals: Seq<i32>,
    names: Seq<Seq<char>>,
    strings: Seq<Seq<char>>,
) -> bool {
    let n = strings.len();
    &&& c.name_v() == benchmark_name(names, k as int)
    &&& c.expression_v() == strings[(k % n) as int]
    &&& c.argv_v() is None
    &&& c.parameters_v().len() == 1
    &&& c.parameters_v()[0].0@ == param
    &&& c.parameters_v()[0].1 == ParameterValue::Numeric(Number::Int(vals[(k / n) as int]))
    &&& c.per_run_v().len() == 0
}

impl Commands {
    /// The benchmarks of one integer parameter scan from `param_min` to
    /// `param_max` by `step`, over the given command templates (the template
    /// varying fastest). With more than one command name, there must be one
    /// per benchmark; otherwise the only one names every benchmark.
    pub fn build_parameter_scan_commands(
        param_name: &str,
        param_min: i32,
        param_max: i32,
        step: i32,
        command_names: Vec<&str>,
        command_strings: Vec<&str>,
    ) -> (r: Result<Vec<Command>, ParameterScanError>)
        requires
            command_strings@.len() * (MAX_PARAMETERS + 1) <= usize::MAX,
        ensures
            param_max < param_min ==> r == Err::<Vec<Command>, ParameterScanError>(ParameterScanError::EmptyRange),
            param_min <= param_max && step == 0 ==> r == Err::<Vec<Command>, ParameterScanError>(
                ParameterScanError::ZeroStep),
            param_min <= param_max && step != 0 && !int_scan_fits(param_min as int, param_max as int, step as int)
                ==> r == Err::<Vec<Command>, ParameterScanError>(ParameterScanError::TooLarge),
            param_min <= param_max && int_scan_fits(param_min as int, param_max as int, step as int) ==> exists|
                vals: Seq<i32>,
            |
                is_int_scan(vals, param_min as int, param_max as int, step as int) && {
                    let t = vals.len() * command_strings@.len();
                    if command_names@.len() > 1 && command_names@.len() != t {
                        r == Err::<Vec<Command>, ParameterScanError>(
                            ParameterScanError::UnexpectedCommandNameCount(command_names@.len() as usize, t as usize),
                        )
                    } else {
                        r matches Ok(v) && v@.len() == t && forall|k: int|
                            0 <= k < t ==> is_scan_benchmark(
                                #[trigger] v@[k],
                                k as nat,
                                param_name@,
                                vals,
                                command_names@.map_values(|s: &str| s@),
                                command_strings@.map_values(|s: &str| s@),
                            )
                    }
                },
    {
        let vals = match int_range(param_min, param_max, step) {
            Ok(v) => v,
            Err(e) => {
                return Err(e);
            },
        };
        let n = command_strings.len();
        let ghost names_v = command_names@.map_values(|s: &str| s@);
        let ghost strings_v = command_strings@.map_values(|s: &str| s@);
        proof {
            lemma_int_scan_len(vals@, param_min as int, param_max as int, step as int);
            assert(vals@.len() * n <= n * (MAX_PARAMETERS + 1)) by (nonlinear_arith)
                requires vals@.len() <= MAX_PARAMETERS + 1, n >= 0;
        }
        let total = vals.len() * n;
        let mut commands: Vec<Command> = Vec::new();
        if n == 0 {
            assert(total == 0) by (nonlinear_arith)
                requires total == vals@.len() * n, n == 0;
            if command_names.len() > 1 {
                return Err(ParameterScanError::UnexpectedCommandNameCount(command_names.len(), total));
            }
            return Ok(commands);
        }
        let mut k: usize = 0;
        while k < total
            invariant
                n == command_strings@.len(),
                n > 0,
                total == vals@.len() * n,
                k <= total,
                names_v == command_names@.map_values(|s: &str| s@),
                strings_v == command_strings@.map_values(|s: &str| s@),
                commands@.len() == k,
                forall|j: int| 0 <= j < k ==> is_scan_benchmark(#[trigger] commands@[j], j as nat, param_name@, vals@,
                    names_v, strings_v),
            decreases total - k,
        {
            let vi = k / n;
            let si = k % n;
            assert(vi < vals@.len()) by (nonlinear_arith)
                requires vi == k / n, k < vals@.len() * n, n > 0;
            let name: Option<&str> = if k < command_names.len() {
                Some(command_names[k])
            } else if command_names.len() > 0 {
                Some(command_names[0])
            } else {
                None
            };
            let c = Command::new_parametrized(
                name,
                command_strings[si],
                vec![(param_name, ParameterValue::Numeric(Number::Int(vals[vi])))],
            );
            commands.push(c);
            assert(is_scan_benchmark(commands@[k as int], k as nat, param_name@, vals@, names_v, strings_v));
            k += 1;
        }
        if command_names.len() > 1 && command_names.len() != total {
            return Err(ParameterScanError::UnexpectedCommandNameCount(command_names.len(), total));
        }
        Ok(commands)
    }
}

} // verus!

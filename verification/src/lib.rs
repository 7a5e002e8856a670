//! Writing numeric arrays to level 5 MAT-files, with every byte that is
//! produced described by a specification.

pub mod array;
pub mod bytes;
pub mod container;
pub mod derive;
pub mod laws;
pub mod num;
pub mod parse;
pub mod utils;

pub use array::{NdArray, ShapeError, WriteMatrix};
pub use container::Container;
pub use num::{F32Bits, F64Bits, Num};
pub use parse::parse_mat_bytes;
pub use utils::{fill_byte_padding, write_default_header, write_text_header};

use vstd::prelude::*;

verus! {

/// The lines that load each result: a newline, the result, and a semicolon
/// where asked for.
pub open spec fn load_lines(results: Seq<Seq<char>>, add_semicolon: bool) -> Seq<char>
    decreases results.len(),
{
    if results.len() == 0 {
        Seq::empty()
    } else {
        load_lines(results.drop_last(), add_semicolon) + seq!['\n'] + results.last() + (if add_semicolon {
            seq![';']
        } else {
            Seq::empty()
        })
    }
}

/// The text of an Octave script that loads `./tests/{run_name}.mat` and then
/// evaluates each of `results`.
pub open spec fn check_file_text(run_name: Seq<char>, results: Seq<Seq<char>>, add_semicolon: bool) -> Seq<char> {
    "load(\"./tests/"@ + run_name + ".mat\")"@ + load_lines(results, add_semicolon)
}

/// Writes the Octave script that a test runs to check a written file: it
/// loads the file and evaluates each of `results_to_load` on a line of its
/// own, with a semicolon after each where `add_semicolon` is set.
pub fn check_file_creator(run_name: &str, results_to_load: &[&str], add_semicolon: bool) -> (out: String)
    ensures
        out@ == check_file_text(
            run_name@,
            results_to_load@.map_values(|r: &str| r@),
            add_semicolon,
        ),
{
    let mut out = String::from_str("load(\"./tests/");
    out.append(run_name);
    out.append(".mat\")");
    let ghost results = results_to_load@.map_values(|r: &str| r@);
    let ghost start = out@;
    let mut i: usize = 0;
    while i < results_to_load.len()
        invariant
            i <= results_to_load@.len(),
            results == results_to_load@.map_values(|r: &str| r@),
            out@ == start + load_lines(results.take(i as int), add_semicolon),
        decreases results_to_load@.len() - i,
    {
        let result = results_to_load[i];
        out.append("\n");
        out.append(result);
        if add_semicolon {
            out.append(";");
        }
        proof {
            reveal_strlit("\n");
            reveal_strlit(";");
            assert(results.take(i + 1).drop_last() =~= results.take(i as int));
            assert(results.take(i + 1).last() == result@);
        }
        i = i + 1;
        assert(out@ =~= start + load_lines(results.take(i as int), add_semicolon));
    }
    assert(results.take(results_to_load@.len() as int) =~= results);
    assert(out@ =~= check_file_text(run_name@, results, add_semicolon));
    out
}

} // verus!

